//! Struct columns and their flat form: field `b` of struct column `a`
//! becomes column `a.b`, at every level of nesting.

use vstd::prelude::*;
use vstd::string::StrSliceExecFns;

use crate::columns::{columns_view, lemma_columns_view_push, ColDataV, Column, ColumnData, ColumnV};
use crate::types::{ColTypeV, ColumnType, Field, FieldV};

verus! {

/// The name of field `name` of struct `prefix` in flat form.
pub open spec fn dotted(prefix: Seq<char>, name: Seq<char>) -> Seq<char> {
    prefix + seq!['.'] + name
}

/// Columns renamed as the fields of struct `prefix`.
pub open spec fn renamed(prefix: Seq<char>, cols: Seq<ColumnV>) -> Seq<ColumnV> {
    Seq::new(cols.len(), |i: int| ColumnV { name: dotted(prefix, cols[i].name), data: cols[i].data })
}

/// The flat form of one column: the column itself, or the flat forms of a
/// struct's fields, named after the struct.
pub open spec fn flat_column(c: ColumnV) -> Seq<ColumnV>
    decreases c,
{
    match c.data {
        ColDataV::Struct(fields) => renamed(c.name, flat_all(fields)),
        _ => seq![c],
    }
}

/// The flat form of a sequence of columns, in order.
pub open spec fn flat_all(cols: Seq<ColumnV>) -> Seq<ColumnV>
    decreases cols,
{
    if cols.len() == 0 {
        Seq::empty()
    } else {
        flat_all(cols.drop_last()) + flat_column(cols.last())
    }
}

fn flat_column_of(c: &Column) -> (r: Vec<Column>)
    ensures
        columns_view(r@) == flat_column(c@),
    decreases c,
{
    match &c.data {
        ColumnData::Struct(fields) => {
            proof {
                assert(decreases_to!(*c => c.data));
                assert(decreases_to!(c.data => (c.data)->Struct_0));
                reveal_strlit(".");
            }
            let inner = flatten(fields);
            let ghost iv = columns_view(inner@);
            let mut out: Vec<Column> = Vec::new();
            let mut i: usize = 0;
            while i < inner.len()
                invariant
                    iv == columns_view(inner@),
                    "."@ == seq!['.'],
                    i <= inner@.len(),
                    columns_view(out@) =~= renamed(c.name@, iv).subrange(0, i as int),
                decreases inner@.len() - i,
            {
                assert(iv[i as int] == inner@[i as int]@);
                let x = Column {
                    name: c.name.clone().concat(".").concat(inner[i].name.as_str()),
                    data: inner[i].data.clone(),
                };
                proof {
                    lemma_columns_view_push(out@, x);
                }
                out.push(x);
                i = i + 1;
                assert(columns_view(out@) =~= renamed(c.name@, iv).subrange(0, i as int));
            }
            assert(columns_view(out@) =~= renamed(c.name@, iv));
            out
        },
        _ => {
            let r = vec![c.clone()];
            assert(columns_view(r@) =~= seq![c@]);
            r
        },
    }
}

/// Replaces each struct column by its fields, recursively, each named
/// `<struct>.<field>`; other columns keep their place.
pub fn flatten(columns: &Vec<Column>) -> (r: Vec<Column>)
    ensures
        columns_view(r@) == flat_all(columns_view(columns@)),
    decreases columns,
{
    let ghost cv = columns_view(columns@);
    let mut out: Vec<Column> = Vec::new();
    let mut i: usize = 0;
    assert(cv.subrange(0, 0) =~= Seq::<ColumnV>::empty());
    while i < columns.len()
        invariant
            cv == columns_view(columns@),
            i <= columns@.len(),
            columns_view(out@) == flat_all(cv.subrange(0, i as int)),
        decreases columns@.len() - i,
    {
        proof {
            assert(decreases_to!(*columns => columns@));
            assert(decreases_to!(columns@ => columns@[i as int]));
        }
        assert(cv[i as int] == columns@[i as int]@);
        let part = flat_column_of(&columns[i]);
        let ghost before = out@;
        let mut j: usize = 0;
        while j < part.len()
            invariant
                j <= part@.len(),
                columns_view(out@) =~= columns_view(before) + columns_view(part@).subrange(0, j as int),
            decreases part@.len() - j,
        {
            let x = part[j].clone();
            proof {
                lemma_columns_view_push(out@, x);
            }
            out.push(x);
            j = j + 1;
            assert(columns_view(out@) =~= columns_view(before) + columns_view(part@).subrange(0, j as int));
        }
        assert(cv.subrange(0, i + 1).drop_last() =~= cv.subrange(0, i as int));
        assert(columns_view(part@).subrange(0, part@.len() as int) =~= columns_view(part@));
        i = i + 1;
    }
    assert(cv.subrange(0, columns@.len() as int) =~= cv);
    out
}


/// The index of the first `.` of a name, or -1.
pub open spec fn dot_index(name: Seq<char>) -> int
    decreases name.len(),
{
    if name.len() == 0 {
        -1
    } else if name[0] == '.' {
        0
    } else {
        let r = dot_index(name.drop_first());
        if r < 0 {
            -1
        } else {
            r + 1
        }
    }
}

pub proof fn lemma_dot_index(name: Seq<char>)
    ensures
        dot_index(name) < name.len(),
        dot_index(name) >= 0 ==> name[dot_index(name)] == '.',
        dot_index(name) >= 0 ==> forall|j: int| 0 <= j < dot_index(name) ==> name[j] != '.',
        dot_index(name) < 0 ==> forall|j: int| 0 <= j < name.len() ==> name[j] != '.',
    decreases name.len(),
{
    if name.len() > 0 && name[0] != '.' {
        lemma_dot_index(name.drop_first());
        assert forall|j: int| 1 <= j < name.len() implies name[j] == name.drop_first()[j - 1] by {}
    }
}

/// The part of a dotted name before its first `.`.
pub open spec fn prefix_of(name: Seq<char>) -> Seq<char> {
    name.subrange(0, dot_index(name))
}

/// The part of a dotted name after its first `.`.
pub open spec fn suffix_of(name: Seq<char>) -> Seq<char> {
    name.subrange(dot_index(name) + 1, name.len() as int)
}

/// The dotted columns whose names start with `p`, renamed to what follows.
pub open spec fn group(cols: Seq<ColumnV>, p: Seq<char>) -> Seq<ColumnV>
    decreases cols.len(),
{
    if cols.len() == 0 {
        Seq::empty()
    } else {
        let rest = group(cols.drop_last(), p);
        let c = cols.last();
        if dot_index(c.name) >= 0 && prefix_of(c.name) == p {
            rest.push(ColumnV { name: suffix_of(c.name), data: c.data })
        } else {
            rest
        }
    }
}

/// Whether a dotted column before index `i` has prefix `p`.
pub open spec fn seen_before(cols: Seq<ColumnV>, i: int, p: Seq<char>) -> bool {
    exists|j: int| 0 <= j < i && dot_index(#[trigger] cols[j].name) >= 0 && prefix_of(cols[j].name) == p
}

/// The length of the longest name.
pub open spec fn max_len(cols: Seq<ColumnV>) -> nat
    decreases cols.len(),
{
    if cols.len() == 0 {
        0
    } else {
        let m = max_len(cols.drop_last());
        if cols.last().name.len() > m {
            cols.last().name.len()
        } else {
            m
        }
    }
}

pub proof fn lemma_max_len_ge(cols: Seq<ColumnV>, i: int)
    requires
        0 <= i < cols.len(),
    ensures
        cols[i].name.len() <= max_len(cols),
    decreases cols.len(),
{
    if i < cols.len() - 1 {
        lemma_max_len_ge(cols.drop_last(), i);
    }
}

pub proof fn lemma_max_len_lt(cols: Seq<ColumnV>, b: nat)
    requires
        b > 0,
        forall|i: int| 0 <= i < cols.len() ==> (#[trigger] cols[i]).name.len() < b,
    ensures
        max_len(cols) < b,
    decreases cols.len(),
{
    if cols.len() > 0 {
        lemma_max_len_lt(cols.drop_last(), b);
    }
}

/// The names of a group are shorter than the longest name.
pub proof fn lemma_group_shorter(cols: Seq<ColumnV>, p: Seq<char>)
    requires
        cols.len() > 0,
        max_len(cols) > 0,
    ensures
        max_len(group(cols, p)) < max_len(cols),
{
    lemma_group_names(cols, p);
    lemma_max_len_lt(group(cols, p), max_len(cols));
}

proof fn lemma_group_names(cols: Seq<ColumnV>, p: Seq<char>)
    ensures
        forall|i: int|
            0 <= i < group(cols, p).len() ==> (#[trigger] group(cols, p)[i]).name.len() < max_len(cols),
    decreases cols.len(),
{
    if cols.len() > 0 {
        let pre = cols.drop_last();
        lemma_group_names(pre, p);
        lemma_max_len_ge(cols, cols.len() - 1);
        lemma_dot_index(cols.last().name);
        assert(max_len(pre) <= max_len(cols));
    }
}

/// The columns with dotted names gathered into struct columns: a column
/// whose name has no `.` stays as it is; the first column with prefix `p`
/// becomes struct column `p`, whose fields are all columns with that prefix
/// (renamed to what follows it, and gathered in turn); the others with that
/// prefix are left out.
pub open spec fn unflat(cols: Seq<ColumnV>) -> Seq<ColumnV>
    decreases max_len(cols), 1nat, 0nat,
{
    pieces(cols, cols.len() as int)
}

/// What the first `k` columns give to [`unflat`].
pub open spec fn pieces(cols: Seq<ColumnV>, k: int) -> Seq<ColumnV>
    decreases max_len(cols), 0nat, k,
{
    if k <= 0 || k > cols.len() {
        Seq::empty()
    } else {
        let rest = pieces(cols, k - 1);
        let c = cols[k - 1];
        if dot_index(c.name) < 0 {
            rest.push(c)
        } else if !seen_before(cols, k - 1, prefix_of(c.name)) {
            proof {
                lemma_max_len_ge(cols, k - 1);
                lemma_dot_index(c.name);
                lemma_group_shorter(cols, prefix_of(c.name));
            }
            rest.push(
                ColumnV {
                    name: prefix_of(c.name),
                    data: ColDataV::Struct(unflat(group(cols, prefix_of(c.name)))),
                },
            )
        } else {
            rest
        }
    }
}


/// The parts of a name before and after its first `.`, if it has one.
fn split_dot(name: &String) -> (r: Option<(String, String)>)
    ensures
        dot_index(name@) < 0 ==> r is None,
        dot_index(name@) >= 0 ==> r is Some && r->Some_0.0@ == prefix_of(name@) && r->Some_0.1@
            == suffix_of(name@),
{
    proof {
        lemma_dot_index(name@);
    }
    let s = name.as_str();
    let n = s.unicode_len();
    let mut i: usize = 0;
    while i < n
        invariant
            n == name@.len(),
            s@ == name@,
            i <= n,
            forall|j: int| 0 <= j < i ==> name@[j] != '.',
            dot_index(name@) < name@.len(),
            dot_index(name@) >= 0 ==> name@[dot_index(name@)] == '.',
            dot_index(name@) >= 0 ==> forall|j: int| 0 <= j < dot_index(name@) ==> name@[j] != '.',
            dot_index(name@) < 0 ==> forall|j: int| 0 <= j < name@.len() ==> name@[j] != '.',
        decreases n - i,
    {
        if s.get_char(i) == '.' {
            assert(dot_index(name@) == i);
            let p = s.substring_char(0, i).to_owned();
            let q = s.substring_char(i + 1, n).to_owned();
            return Some((p, q));
        }
        i = i + 1;
    }
    None
}

/// Whether a dotted column before index `i` has prefix `p`.
fn prefix_seen(columns: &Vec<Column>, i: usize, p: &String) -> (r: bool)
    requires
        i <= columns@.len(),
    ensures
        r == seen_before(columns_view(columns@), i as int, p@),
{
    let ghost cv = columns_view(columns@);
    let mut j: usize = 0;
    while j < i
        invariant
            cv == columns_view(columns@),
            i <= columns@.len(),
            j <= i,
            forall|l: int| 0 <= l < j ==> !(dot_index(#[trigger] cv[l].name) >= 0 && prefix_of(cv[l].name) == p@),
        decreases i - j,
    {
        assert(cv[j as int] == columns@[j as int]@);
        if let Some((q, _)) = split_dot(&columns[j].name) {
            if q == *p {
                assert(dot_index(cv[j as int].name) >= 0 && prefix_of(cv[j as int].name) == p@);
                return true;
            }
        }
        j = j + 1;
    }
    false
}

/// The dotted columns whose names start with `p`, renamed to what follows.
fn group_of(columns: &Vec<Column>, p: &String) -> (r: Vec<Column>)
    ensures
        columns_view(r@) == group(columns_view(columns@), p@),
{
    let ghost cv = columns_view(columns@);
    let mut out: Vec<Column> = Vec::new();
    let mut j: usize = 0;
    assert(cv.subrange(0, 0) =~= Seq::<ColumnV>::empty());
    while j < columns.len()
        invariant
            cv == columns_view(columns@),
            j <= columns@.len(),
            columns_view(out@) == group(cv.subrange(0, j as int), p@),
        decreases columns@.len() - j,
    {
        assert(cv.subrange(0, j + 1).drop_last() =~= cv.subrange(0, j as int));
        assert(cv[j as int] == columns@[j as int]@);
        assert(cv.subrange(0, j + 1).last() == cv[j as int]);
        if let Some((q, rest)) = split_dot(&columns[j].name) {
            if q == *p {
                let c = Column { name: rest, data: columns[j].data.clone() };
                proof {
                    lemma_columns_view_push(out@, c);
                }
                out.push(c);
            }
        }
        j = j + 1;
    }
    assert(cv.subrange(0, columns@.len() as int) =~= cv);
    out
}

/// Gathers columns with dotted names back into struct columns: the inverse
/// of [`flatten`]. A column whose name has no `.` keeps its place; the
/// columns named `<p>.<rest>` become one struct column `p` at the place of
/// the first of them, with fields `<rest>`, gathered in turn.
pub fn unflatten(columns: &Vec<Column>) -> (r: Vec<Column>)
    ensures
        columns_view(r@) == unflat(columns_view(columns@)),
    decreases max_len(columns_view(columns@)),
{
    let ghost cv = columns_view(columns@);
    let mut out: Vec<Column> = Vec::new();
    let mut i: usize = 0;
    while i < columns.len()
        invariant
            cv == columns_view(columns@),
            i <= columns@.len(),
            columns_view(out@) == pieces(cv, i as int),
        decreases columns@.len() - i,
    {
        assert(cv[i as int] == columns@[i as int]@);
        match split_dot(&columns[i].name) {
            None => {
                let c = columns[i].clone();
                proof {
                    lemma_columns_view_push(out@, c);
                }
                out.push(c);
            },
            Some((p, _)) => {
                if !prefix_seen(columns, i, &p) {
                    let g = group_of(columns, &p);
                    proof {
                        lemma_max_len_ge(cv, i as int);
                        lemma_dot_index(cv[i as int].name);
                        lemma_group_shorter(cv, p@);
                    }
                    let sub = unflatten(&g);
                    let c = Column { name: p, data: ColumnData::Struct(sub) };
                    proof {
                        lemma_columns_view_push(out@, c);
                    }
                    out.push(c);
                }
            },
        }
        i = i + 1;
    }
    out
}


pub open spec fn fields_view(s: Seq<Field>) -> Seq<FieldV> {
    Seq::new(s.len(), |i: int| s[i]@)
}

/// Fields renamed as the fields of struct `prefix`.
pub open spec fn renamed_fields(prefix: Seq<char>, fs: Seq<FieldV>) -> Seq<FieldV> {
    Seq::new(fs.len(), |i: int| FieldV { name: dotted(prefix, fs[i].name), dtype: fs[i].dtype })
}

/// The flat form of one field of a schema, as [`flat_column`] for columns.
pub open spec fn flat_field(f: FieldV) -> Seq<FieldV>
    decreases f,
{
    match f.dtype {
        ColTypeV::Struct(fs) => renamed_fields(f.name, flat_fields(fs)),
        _ => seq![f],
    }
}

/// The flat form of a schema, in order.
pub open spec fn flat_fields(fs: Seq<FieldV>) -> Seq<FieldV>
    decreases fs,
{
    if fs.len() == 0 {
        Seq::empty()
    } else {
        flat_fields(fs.drop_last()) + flat_field(fs.last())
    }
}

pub proof fn lemma_fields_view_push(s: Seq<Field>, x: Field)
    ensures
        fields_view(s.push(x)) == fields_view(s).push(x@),
{
    assert(fields_view(s.push(x)) =~= fields_view(s).push(x@));
}

fn flat_field_of(f: &Field) -> (r: Vec<Field>)
    ensures
        fields_view(r@) == flat_field(f@),
    decreases f,
{
    match &f.dtype {
        ColumnType::Struct(fs) => {
            proof {
                assert(decreases_to!(*f => f.dtype));
                assert(decreases_to!(f.dtype => (f.dtype)->Struct_0));
                reveal_strlit(".");
                assert(f@.dtype->Struct_0 =~= fields_view(fs@));
            }
            let inner = flatten_schema(fs);
            let ghost iv = fields_view(inner@);
            let mut out: Vec<Field> = Vec::new();
            let mut i: usize = 0;
            while i < inner.len()
                invariant
                    iv == fields_view(inner@),
                    "."@ == seq!['.'],
                    i <= inner@.len(),
                    fields_view(out@) =~= renamed_fields(f.name@, iv).subrange(0, i as int),
                decreases inner@.len() - i,
            {
                let x = Field {
                    name: f.name.clone().concat(".").concat(inner[i].name.as_str()),
                    dtype: inner[i].dtype.clone(),
                };
                proof {
                    lemma_fields_view_push(out@, x);
                }
                out.push(x);
                i = i + 1;
                assert(fields_view(out@) =~= renamed_fields(f.name@, iv).subrange(0, i as int));
            }
            assert(fields_view(out@) =~= renamed_fields(f.name@, iv));
            out
        },
        _ => {
            let r = vec![f.clone()];
            assert(fields_view(r@) =~= seq![f@]);
            r
        },
    }
}

/// The flat form of a schema: each struct field replaced by its fields,
/// recursively, each named `<struct>.<field>`.
pub fn flatten_schema(schema: &Vec<Field>) -> (r: Vec<Field>)
    ensures
        fields_view(r@) == flat_fields(fields_view(schema@)),
    decreases schema,
{
    let ghost sv = fields_view(schema@);
    let mut out: Vec<Field> = Vec::new();
    let mut i: usize = 0;
    assert(sv.subrange(0, 0) =~= Seq::<FieldV>::empty());
    while i < schema.len()
        invariant
            sv == fields_view(schema@),
            i <= schema@.len(),
            fields_view(out@) == flat_fields(sv.subrange(0, i as int)),
        decreases schema@.len() - i,
    {
        proof {
            assert(decreases_to!(*schema => schema@));
            assert(decreases_to!(schema@ => schema@[i as int]));
        }
        let part = flat_field_of(&schema[i]);
        let ghost before = out@;
        let mut j: usize = 0;
        while j < part.len()
            invariant
                j <= part@.len(),
                fields_view(out@) =~= fields_view(before) + fields_view(part@).subrange(0, j as int),
            decreases part@.len() - j,
        {
            let x = part[j].clone();
            proof {
                lemma_fields_view_push(out@, x);
            }
            out.push(x);
            j = j + 1;
            assert(fields_view(out@) =~= fields_view(before) + fields_view(part@).subrange(0, j as int));
        }
        assert(sv.subrange(0, i + 1).drop_last() =~= sv.subrange(0, i as int));
        assert(fields_view(part@).subrange(0, part@.len() as int) =~= fields_view(part@));
        i = i + 1;
    }
    assert(sv.subrange(0, schema@.len() as int) =~= sv);
    out
}

} // verus!
