//! Dataframe columns: a name and typed cells, each of which may be null.

use vstd::prelude::*;

use crate::errors::Error;
use crate::types::{col_type_view, ColTypeV, ColumnType, Field, FieldV, NumKind};

verus! {

/// The cells of a column.
#[derive(Debug, PartialEq, Eq)]
pub enum ColumnData {
    /// Numbers of one kind; floats are held by their IEEE bits.
    Num(NumKind, Vec<Option<i128>>),
    Boolean(Vec<Option<bool>>),
    Utf8(Vec<Option<String>>),
    /// Strings stored through a dictionary.
    Categorical(Vec<Option<String>>),
    /// Lists whose elements have the given type; each row is a column.
    List(ColumnType, Vec<Option<ColumnData>>),
    /// Rows made of named fields, one column per field.
    Struct(Vec<Column>),
}

/// A named column.
#[derive(Debug, PartialEq, Eq)]
pub struct Column {
    pub name: String,
    pub data: ColumnData,
}

/// Mathematical model of [`ColumnData`].
pub enum ColDataV {
    Num(NumKind, Seq<Option<i128>>),
    Boolean(Seq<Option<bool>>),
    Utf8(Seq<Option<Seq<char>>>),
    Categorical(Seq<Option<Seq<char>>>),
    List(ColTypeV, Seq<Option<ColDataV>>),
    Struct(Seq<ColumnV>),
}

/// Mathematical model of a [`Column`].
pub struct ColumnV {
    pub name: Seq<char>,
    pub data: ColDataV,
}

pub open spec fn opt_text(o: Option<String>) -> Option<Seq<char>> {
    match o {
        Some(s) => Some(s@),
        None => None,
    }
}

pub open spec fn texts_view(s: Seq<Option<String>>) -> Seq<Option<Seq<char>>> {
    Seq::new(s.len(), |i: int| opt_text(s[i]))
}

pub open spec fn col_data_view(d: ColumnData) -> ColDataV
    decreases d,
{
    match d {
        ColumnData::Num(k, v) => ColDataV::Num(k, v@),
        ColumnData::Boolean(v) => ColDataV::Boolean(v@),
        ColumnData::Utf8(v) => ColDataV::Utf8(texts_view(v@)),
        ColumnData::Categorical(v) => ColDataV::Categorical(texts_view(v@)),
        ColumnData::List(t, rows) => {
            proof {
                assert(decreases_to!(d => rows));
                assert(decreases_to!(rows => rows@));
            }
            ColDataV::List(col_type_view(t), rows_view(rows@))
        },
        ColumnData::Struct(cols) => {
            proof {
                assert(decreases_to!(d => cols));
                assert(decreases_to!(cols => cols@));
            }
            ColDataV::Struct(columns_view(cols@))
        },
    }
}

/// The models of the rows of a list column.
pub open spec fn rows_view(s: Seq<Option<ColumnData>>) -> Seq<Option<ColDataV>>
    decreases s,
{
    Seq::new(
        s.len(),
        |i: int|
            if 0 <= i < s.len() {
                match s[i] {
                    Some(c) => {
                        proof {
                            assert(decreases_to!(s => s[i]));
                        }
                        Some(col_data_view(c))
                    },
                    None => None,
                }
            } else {
                None
            },
    )
}

/// The models of a sequence of columns.
pub open spec fn columns_view(s: Seq<Column>) -> Seq<ColumnV>
    decreases s,
{
    Seq::new(
        s.len(),
        |i: int|
            if 0 <= i < s.len() {
                proof {
                    assert(decreases_to!(s => s[i]));
                    assert(decreases_to!(s[i] => s[i].data));
                }
                ColumnV { name: s[i].name@, data: col_data_view(s[i].data) }
            } else {
                ColumnV { name: Seq::empty(), data: ColDataV::Boolean(Seq::empty()) }
            },
    )
}

pub proof fn lemma_texts_view_push(s: Seq<Option<String>>, x: Option<String>)
    ensures
        texts_view(s.push(x)) == texts_view(s).push(opt_text(x)),
{
    assert(texts_view(s.push(x)) =~= texts_view(s).push(opt_text(x)));
}

pub proof fn lemma_rows_view_push(s: Seq<Option<ColumnData>>, x: Option<ColumnData>)
    ensures
        rows_view(s.push(x)) == rows_view(s).push(
            match x {
                Some(c) => Some(col_data_view(c)),
                None => None,
            },
        ),
{
    assert(rows_view(s.push(x)) =~= rows_view(s).push(
        match x {
            Some(c) => Some(col_data_view(c)),
            None => None,
        },
    ));
}

pub proof fn lemma_columns_view_push(s: Seq<Column>, x: Column)
    ensures
        columns_view(s.push(x)) == columns_view(s).push(x@),
{
    assert(columns_view(s.push(x)) =~= columns_view(s).push(x@));
}

impl View for ColumnData {
    type V = ColDataV;

    open spec fn view(&self) -> ColDataV {
        col_data_view(*self)
    }
}

impl View for Column {
    type V = ColumnV;

    open spec fn view(&self) -> ColumnV {
        ColumnV { name: self.name@, data: self.data@ }
    }
}

/// The number of rows of a column; a struct column has as many as its first field.
pub open spec fn data_len(d: ColDataV) -> nat {
    match d {
        ColDataV::Num(_, v) => v.len(),
        ColDataV::Boolean(v) => v.len(),
        ColDataV::Utf8(v) => v.len(),
        ColDataV::Categorical(v) => v.len(),
        ColDataV::List(_, v) => v.len(),
        ColDataV::Struct(cols) => if cols.len() > 0 {
            data_len_first(cols[0].data)
        } else {
            0
        },
    }
}

/// The number of rows of a column that is not a struct column.
pub open spec fn data_len_first(d: ColDataV) -> nat {
    match d {
        ColDataV::Num(_, v) => v.len(),
        ColDataV::Boolean(v) => v.len(),
        ColDataV::Utf8(v) => v.len(),
        ColDataV::Categorical(v) => v.len(),
        ColDataV::List(_, v) => v.len(),
        ColDataV::Struct(_) => 0,
    }
}

/// The type of a column.
pub open spec fn dtype_of(d: ColDataV) -> ColTypeV
    decreases d,
{
    match d {
        ColDataV::Num(k, _) => ColTypeV::Num(k),
        ColDataV::Boolean(_) => ColTypeV::Boolean,
        ColDataV::Utf8(_) => ColTypeV::String,
        ColDataV::Categorical(_) => ColTypeV::Categorical,
        ColDataV::List(t, _) => ColTypeV::List(Box::new(t)),
        ColDataV::Struct(cols) => ColTypeV::Struct(
            Seq::new(
                cols.len(),
                |i: int|
                    FieldV {
                        name: cols[i].name,
                        dtype: if 0 <= i < cols.len() {
                            proof {
                                assert(decreases_to!(cols => cols[i]));
                            }
                            dtype_of(cols[i].data)
                        } else {
                            ColTypeV::Boolean
                        },
                    },
            ),
        ),
    }
}


impl ColumnData {
    /// The number of rows.
    pub fn len(&self) -> (r: usize)
        ensures
            r == data_len(self@),
    {
        match self {
            ColumnData::Num(_, v) => v.len(),
            ColumnData::Boolean(v) => v.len(),
            ColumnData::Utf8(v) => v.len(),
            ColumnData::Categorical(v) => v.len(),
            ColumnData::List(_, v) => v.len(),
            ColumnData::Struct(cols) => {
                if cols.len() > 0 {
                    assert(columns_view(cols@)[0] == cols@[0]@);
                    match &cols[0].data {
                        ColumnData::Num(_, v) => v.len(),
                        ColumnData::Boolean(v) => v.len(),
                        ColumnData::Utf8(v) => v.len(),
                        ColumnData::Categorical(v) => v.len(),
                        ColumnData::List(_, v) => v.len(),
                        ColumnData::Struct(_) => 0,
                    }
                } else {
                    0
                }
            },
        }
    }

    /// The type of the column.
    pub fn dtype(&self) -> (r: ColumnType)
        ensures
            r@ == dtype_of(self@),
        decreases self,
    {
        match self {
            ColumnData::Num(k, _) => ColumnType::Num(*k),
            ColumnData::Boolean(_) => ColumnType::Boolean,
            ColumnData::Utf8(_) => ColumnType::String,
            ColumnData::Categorical(_) => ColumnType::Categorical,
            ColumnData::List(t, _) => ColumnType::List(Box::new(t.clone())),
            ColumnData::Struct(cols) => {
                let ghost cv = columns_view(cols@);
                let mut out: Vec<Field> = Vec::new();
                let mut i: usize = 0;
                while i < cols.len()
                    invariant
                        *self == ColumnData::Struct(*cols),
                        cv == columns_view(cols@),
                        i <= cols@.len(),
                        out@.len() == i,
                        forall|j: int|
                            0 <= j < i ==> (#[trigger] out@[j])@ == (FieldV {
                                name: cv[j].name,
                                dtype: dtype_of(cv[j].data),
                            }),
                    decreases cols@.len() - i,
                {
                    proof {
                        assert(decreases_to!(*self => (*self)->Struct_0));
                        assert(decreases_to!(*cols => cols@));
                        assert(decreases_to!(cols@ => cols@[i as int]));
                        assert(decreases_to!(cols@[i as int] => cols@[i as int].data));
                    }
                    assert(cv[i as int] == cols@[i as int]@);
                    let c = &cols[i];
                    out.push(Field { name: c.name.clone(), dtype: c.data.dtype() });
                    i = i + 1;
                }
                let r = ColumnType::Struct(out);
                proof {
                    let a = col_type_view(r)->Struct_0;
                    let b = dtype_of(self@)->Struct_0;
                    assert(self@ == ColDataV::Struct(cv));
                    assert forall|j: int| 0 <= j < a.len() implies a[j] == b[j] by {
                        assert(out@[j]@ == a[j]);
                    }
                    assert(a =~= b);
                }
                r
            },
        }
    }
}


fn copy_cells<T: Copy>(v: &Vec<Option<T>>) -> (r: Vec<Option<T>>)
    ensures
        r@ == v@,
{
    let mut out: Vec<Option<T>> = Vec::new();
    let mut i: usize = 0;
    while i < v.len()
        invariant
            i <= v@.len(),
            out@ =~= v@.subrange(0, i as int),
        decreases v@.len() - i,
    {
        let c = match &v[i] {
            Some(x) => Some(*x),
            None => None,
        };
        out.push(c);
        i = i + 1;
    }
    out
}

fn copy_texts(v: &Vec<Option<String>>) -> (r: Vec<Option<String>>)
    ensures
        texts_view(r@) == texts_view(v@),
{
    let mut out: Vec<Option<String>> = Vec::new();
    let mut i: usize = 0;
    while i < v.len()
        invariant
            i <= v@.len(),
            texts_view(out@) =~= texts_view(v@).subrange(0, i as int),
        decreases v@.len() - i,
    {
        let c = match &v[i] {
            Some(x) => Some(x.clone()),
            None => None,
        };
        proof {
            lemma_texts_view_push(out@, c);
        }
        out.push(c);
        i = i + 1;
        assert(texts_view(out@) =~= texts_view(v@).subrange(0, i as int));
    }
    out
}

impl Clone for ColumnData {
    fn clone(&self) -> (r: ColumnData)
        ensures
            r@ == self@,
        decreases self,
    {
        match self {
            ColumnData::Num(k, v) => ColumnData::Num(*k, copy_cells(v)),
            ColumnData::Boolean(v) => ColumnData::Boolean(copy_cells(v)),
            ColumnData::Utf8(v) => ColumnData::Utf8(copy_texts(v)),
            ColumnData::Categorical(v) => ColumnData::Categorical(copy_texts(v)),
            ColumnData::List(t, rows) => {
                let ghost rv = rows_view(rows@);
                let mut out: Vec<Option<ColumnData>> = Vec::new();
                let mut i: usize = 0;
                while i < rows.len()
                    invariant
                        *self == ColumnData::List(*t, *rows),
                        rv == rows_view(rows@),
                        i <= rows@.len(),
                        rows_view(out@) =~= rv.subrange(0, i as int),
                    decreases rows@.len() - i,
                {
                    let c = match &rows[i] {
                        Some(d) => {
                            proof {
                                assert(decreases_to!(*self => (*self)->List_1));
                                assert(decreases_to!(*rows => rows@));
                                assert(decreases_to!(rows@ => rows@[i as int]));
                                assert(decreases_to!(rows@[i as int] => rows@[i as int]->Some_0));
                            }
                            assert(rv[i as int] == Some(d@));
                            Some(d.clone())
                        },
                        None => {
                            assert(rv[i as int] is None);
                            None
                        },
                    };
                    proof {
                        lemma_rows_view_push(out@, c);
                    }
                    out.push(c);
                    i = i + 1;
                    assert(rows_view(out@) =~= rv.subrange(0, i as int));
                }
                assert(rows_view(out@) =~= rv);
                let r = ColumnData::List(t.clone(), out);
                assert(r@ == self@);
                r
            },
            ColumnData::Struct(cols) => {
                let ghost cv = columns_view(cols@);
                let mut out: Vec<Column> = Vec::new();
                let mut i: usize = 0;
                while i < cols.len()
                    invariant
                        *self == ColumnData::Struct(*cols),
                        cv == columns_view(cols@),
                        i <= cols@.len(),
                        columns_view(out@) =~= cv.subrange(0, i as int),
                    decreases cols@.len() - i,
                {
                    proof {
                        assert(decreases_to!(*self => (*self)->Struct_0));
                        assert(decreases_to!(*cols => cols@));
                        assert(decreases_to!(cols@ => cols@[i as int]));
                        assert(decreases_to!(cols@[i as int] => cols@[i as int].data));
                    }
                    assert(cv[i as int] == cols@[i as int]@);
                    let c = Column { name: cols[i].name.clone(), data: cols[i].data.clone() };
                    proof {
                        lemma_columns_view_push(out@, c);
                    }
                    out.push(c);
                    i = i + 1;
                    assert(columns_view(out@) =~= cv.subrange(0, i as int));
                }
                assert(columns_view(out@) =~= cv);
                let r = ColumnData::Struct(out);
                assert(r@ == self@);
                r
            },
        }
    }
}

impl Clone for Column {
    fn clone(&self) -> (r: Column)
        ensures
            r@ == self@,
    {
        Column { name: self.name.clone(), data: self.data.clone() }
    }
}


/// Two columns of one kind, one after the other; `None` when their kinds differ.
pub open spec fn appended(a: ColDataV, b: ColDataV) -> Option<ColDataV> {
    match (a, b) {
        (ColDataV::Num(k, x), ColDataV::Num(k2, y)) => if k == k2 {
            Some(ColDataV::Num(k, x + y))
        } else {
            None
        },
        (ColDataV::Boolean(x), ColDataV::Boolean(y)) => Some(ColDataV::Boolean(x + y)),
        (ColDataV::Utf8(x), ColDataV::Utf8(y)) => Some(ColDataV::Utf8(x + y)),
        (ColDataV::Categorical(x), ColDataV::Categorical(y)) => Some(ColDataV::Categorical(x + y)),
        (ColDataV::List(t, x), ColDataV::List(t2, y)) => if t == t2 {
            Some(ColDataV::List(t, x + y))
        } else {
            None
        },
        _ => None,
    }
}

/// Appends `b` to `a`; columns of different kinds give `MismatchingSeriesType`
/// with the type of `b`.
pub fn append_data(a: ColumnData, b: ColumnData) -> (r: Result<ColumnData, Error>)
    ensures
        match appended(a@, b@) {
            Some(c) => r is Ok && r->Ok_0@ == c,
            None => r matches Err(Error::MismatchingSeriesType(_)),
        },
{
    let bt = b.dtype();
    match (a, b) {
        (ColumnData::Num(k, mut x), ColumnData::Num(k2, mut y)) => {
            if k == k2 {
                x.append(&mut y);
                Ok(ColumnData::Num(k, x))
            } else {
                Err(Error::MismatchingSeriesType(bt))
            }
        },
        (ColumnData::Boolean(mut x), ColumnData::Boolean(mut y)) => {
            x.append(&mut y);
            Ok(ColumnData::Boolean(x))
        },
        (ColumnData::Utf8(mut x), ColumnData::Utf8(mut y)) => {
            let ghost (ox, oy) = (x@, y@);
            x.append(&mut y);
            assert(texts_view(x@) =~= texts_view(ox) + texts_view(oy));
            Ok(ColumnData::Utf8(x))
        },
        (ColumnData::Categorical(mut x), ColumnData::Categorical(mut y)) => {
            let ghost (ox, oy) = (x@, y@);
            x.append(&mut y);
            assert(texts_view(x@) =~= texts_view(ox) + texts_view(oy));
            Ok(ColumnData::Categorical(x))
        },
        (ColumnData::List(t, mut x), ColumnData::List(t2, mut y)) => {
            if t.same(&t2) {
                let ghost (ox, oy) = (x@, y@);
                x.append(&mut y);
                assert(rows_view(x@) =~= rows_view(ox) + rows_view(oy));
                Ok(ColumnData::List(t, x))
            } else {
                Err(Error::MismatchingSeriesType(bt))
            }
        },
        _ => Err(Error::MismatchingSeriesType(bt)),
    }
}

} // verus!
