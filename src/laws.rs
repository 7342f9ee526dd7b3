//! Laws that relate several operations: flattening then gathering struct
//! columns, and inserting a dataframe then reading it back.

use vstd::prelude::*;

use crate::accumulator::{
    after_block, after_blocks, empty_columns, filled_columns, first_index, lemma_first_index,
    merged, same_lengths,
};
use crate::codec::{
    ch_depth, decodable, decoded, encodable, encoded, encoded_rows, lemma_codec_round_trip, lemma_decode_concat,
    well_typed,
};
use crate::columns::{appended, data_len, dtype_of, ColDataV, ColumnV};
use crate::table::table_names;
use crate::types::{column_type_of, native_of, ChTypeV, ColTypeV, DbTypeV};
use crate::values::ValueV;
use crate::structs::{
    dot_index, dotted, flat_all, flat_column, group, lemma_dot_index, pieces, prefix_of,
    renamed, seen_before, suffix_of, unflat,
};

verus! {

/// Names that hold no `.`, unique among siblings, and struct columns with at
/// least one field, at every level.
pub open spec fn nested_ok(cols: Seq<ColumnV>) -> bool
    decreases cols,
{
    &&& forall|i: int, j: int|
        0 <= i < j < cols.len() ==> (#[trigger] cols[i]).name != (#[trigger] cols[j]).name
    &&& forall|i: int|
        0 <= i < cols.len() ==> {
            &&& dot_index((#[trigger] cols[i]).name) < 0
            &&& cols[i].data is Struct ==> {
                &&& cols[i].data->Struct_0.len() > 0
                &&& nested_ok(cols[i].data->Struct_0)
            }
        }
}

/// No dotted name of `a` has a prefix that a dotted name of `b` has.
pub open spec fn disjoint(a: Seq<ColumnV>, b: Seq<ColumnV>) -> bool {
    forall|i: int, j: int|
        0 <= i < a.len() && 0 <= j < b.len() && dot_index((#[trigger] a[i]).name) >= 0 && dot_index(
            (#[trigger] b[j]).name,
        ) >= 0 ==> prefix_of(a[i].name) != prefix_of(b[j].name)
}

proof fn lemma_dotted_name(p: Seq<char>, x: Seq<char>)
    requires
        dot_index(p) < 0,
    ensures
        dot_index(dotted(p, x)) == p.len(),
        prefix_of(dotted(p, x)) == p,
        suffix_of(dotted(p, x)) == x,
{
    let s = dotted(p, x);
    lemma_dot_index(p);
    lemma_dot_index(s);
    assert(s[p.len() as int] == '.');
    let d = dot_index(s);
    if d < p.len() {
        if d >= 0 {
            assert(s[d] == p[d]);
        }
    }
    assert(s.subrange(0, p.len() as int) =~= p);
    assert(s.subrange(p.len() as int + 1, s.len() as int) =~= x);
}

proof fn lemma_group_concat(a: Seq<ColumnV>, b: Seq<ColumnV>, p: Seq<char>)
    ensures
        group(a + b, p) == group(a, p) + group(b, p),
    decreases b.len(),
{
    if b.len() == 0 {
        assert(a + b =~= a);
        assert(group(b, p) =~= Seq::<ColumnV>::empty());
        assert(group(a, p) + group(b, p) =~= group(a, p));
    } else {
        lemma_group_concat(a, b.drop_last(), p);
        assert((a + b).drop_last() =~= a + b.drop_last());
        assert((a + b).last() == b.last());
    }
}

proof fn lemma_group_none(a: Seq<ColumnV>, p: Seq<char>)
    requires
        forall|i: int| 0 <= i < a.len() && dot_index((#[trigger] a[i]).name) >= 0 ==> prefix_of(a[i].name) != p,
    ensures
        group(a, p) == Seq::<ColumnV>::empty(),
    decreases a.len(),
{
    if a.len() > 0 {
        assert forall|i: int| 0 <= i < a.drop_last().len() && dot_index((#[trigger] a.drop_last()[i]).name) >= 0
            implies prefix_of(a.drop_last()[i].name) != p by {
            assert(a.drop_last()[i] == a[i]);
        }
        lemma_group_none(a.drop_last(), p);
        assert(a.last() == a[a.len() - 1]);
    }
}

proof fn lemma_pieces_prefix(a: Seq<ColumnV>, b: Seq<ColumnV>, k: int)
    requires
        disjoint(a, b),
        0 <= k <= a.len(),
    ensures
        pieces(a + b, k) == pieces(a, k),
    decreases k,
{
    if k > 0 {
        lemma_pieces_prefix(a, b, k - 1);
        let ab = a + b;
        let c = a[k - 1];
        assert(ab[k - 1] == c);
        if dot_index(c.name) >= 0 {
            let p = prefix_of(c.name);
            assert(seen_before(ab, k - 1, p) == seen_before(a, k - 1, p)) by {
                if seen_before(ab, k - 1, p) {
                    let j = choose|j: int| 0 <= j < k - 1 && dot_index(#[trigger] ab[j].name) >= 0 && prefix_of(ab[j].name) == p;
                    assert(ab[j] == a[j]);
                }
                if seen_before(a, k - 1, p) {
                    let j = choose|j: int| 0 <= j < k - 1 && dot_index(#[trigger] a[j].name) >= 0 && prefix_of(a[j].name) == p;
                    assert(ab[j] == a[j]);
                }
            }
            lemma_group_concat(a, b, p);
            assert forall|i: int| 0 <= i < b.len() && dot_index((#[trigger] b[i]).name) >= 0 implies prefix_of(b[i].name) != p by {
                assert(a[k - 1] == c);
            }
            lemma_group_none(b, p);
            assert(group(a, p) + Seq::<ColumnV>::empty() =~= group(a, p));
        }
    }
}

proof fn lemma_pieces_suffix(a: Seq<ColumnV>, b: Seq<ColumnV>, j: int)
    requires
        disjoint(a, b),
        0 <= j <= b.len(),
    ensures
        pieces(a + b, a.len() + j) == unflat(a) + pieces(b, j),
    decreases j,
{
    let ab = a + b;
    if j == 0 {
        lemma_pieces_prefix(a, b, a.len() as int);
        assert(pieces(b, 0) =~= Seq::<ColumnV>::empty());
        assert(unflat(a) + pieces(b, 0) =~= unflat(a));
    } else {
        lemma_pieces_suffix(a, b, j - 1);
        let k = a.len() + j;
        let c = b[j - 1];
        assert(ab[k - 1] == c);
        if dot_index(c.name) >= 0 {
            let p = prefix_of(c.name);
            assert(seen_before(ab, k - 1, p) == seen_before(b, j - 1, p)) by {
                if seen_before(ab, k - 1, p) {
                    let l = choose|l: int| 0 <= l < k - 1 && dot_index(#[trigger] ab[l].name) >= 0 && prefix_of(ab[l].name) == p;
                    if l < a.len() {
                        assert(ab[l] == a[l]);
                        assert(b[j - 1] == c);
                    } else {
                        assert(ab[l] == b[l - a.len()]);
                    }
                }
                if seen_before(b, j - 1, p) {
                    let l = choose|l: int| 0 <= l < j - 1 && dot_index(#[trigger] b[l].name) >= 0 && prefix_of(b[l].name) == p;
                    assert(ab[a.len() + l] == b[l]);
                }
            }
            lemma_group_concat(a, b, p);
            assert forall|i: int| 0 <= i < a.len() && dot_index((#[trigger] a[i]).name) >= 0 implies prefix_of(a[i].name) != p by {
                assert(b[j - 1] == c);
            }
            lemma_group_none(a, p);
            assert(Seq::<ColumnV>::empty() + group(b, p) =~= group(b, p));
        }
        assert(pieces(ab, k) =~= unflat(a) + pieces(b, j));
    }
}

/// Gathering two runs of columns whose dotted names share no prefix is
/// gathering each of them.
pub proof fn lemma_unflat_concat(a: Seq<ColumnV>, b: Seq<ColumnV>)
    requires
        disjoint(a, b),
    ensures
        unflat(a + b) == unflat(a) + unflat(b),
{
    lemma_pieces_suffix(a, b, b.len() as int);
}

proof fn lemma_renamed_dotted(p: Seq<char>, x: Seq<ColumnV>, i: int)
    requires
        dot_index(p) < 0,
        0 <= i < x.len(),
    ensures
        dot_index(renamed(p, x)[i].name) >= 0,
        prefix_of(renamed(p, x)[i].name) == p,
        suffix_of(renamed(p, x)[i].name) == x[i].name,
{
    lemma_dotted_name(p, x[i].name);
}

proof fn lemma_group_renamed(p: Seq<char>, x: Seq<ColumnV>)
    requires
        dot_index(p) < 0,
    ensures
        group(renamed(p, x), p) == x,
    decreases x.len(),
{
    if x.len() > 0 {
        lemma_group_renamed(p, x.drop_last());
        assert(renamed(p, x).drop_last() =~= renamed(p, x.drop_last()));
        lemma_renamed_dotted(p, x, x.len() - 1);
        assert(renamed(p, x).last() == renamed(p, x)[x.len() - 1]);
        assert(group(renamed(p, x), p) =~= x);
    } else {
        assert(renamed(p, x) =~= Seq::<ColumnV>::empty());
    }
}

proof fn lemma_pieces_renamed(p: Seq<char>, x: Seq<ColumnV>, k: int)
    requires
        dot_index(p) < 0,
        1 <= k <= x.len(),
    ensures
        pieces(renamed(p, x), k) == seq![
            ColumnV { name: p, data: ColDataV::Struct(unflat(group(renamed(p, x), p))) },
        ],
    decreases k,
{
    let r = renamed(p, x);
    lemma_renamed_dotted(p, x, k - 1);
    if k == 1 {
        assert(pieces(r, 0) =~= Seq::<ColumnV>::empty());
        assert(!seen_before(r, 0, p));
    } else {
        lemma_pieces_renamed(p, x, k - 1);
        lemma_renamed_dotted(p, x, 0);
        assert(seen_before(r, k - 1, p)) by {
            assert(dot_index(r[0].name) >= 0 && prefix_of(r[0].name) == p);
        }
    }
}

proof fn lemma_flat_nonempty(cols: Seq<ColumnV>)
    requires
        nested_ok(cols),
        cols.len() > 0,
    ensures
        flat_all(cols).len() > 0,
    decreases cols,
{
    let c = cols.last();
    assert(c == cols[cols.len() - 1]);
    assert(flat_all(cols) == flat_all(cols.drop_last()) + flat_column(c));
    if c.data is Struct {
        lemma_flat_nonempty(c.data->Struct_0);
        assert(flat_column(c) == renamed(c.name, flat_all(c.data->Struct_0)));
    } else {
        assert(flat_column(c) == seq![c]);
    }
    assert(flat_column(c).len() > 0);
}

/// Each dotted name of a flat form has a prefix that names a column of the unflattened input.
proof fn lemma_flat_prefixes(cols: Seq<ColumnV>, i: int)
    requires
        nested_ok(cols),
        0 <= i < flat_all(cols).len(),
        dot_index(flat_all(cols)[i].name) >= 0,
    ensures
        exists|j: int| 0 <= j < cols.len() && (#[trigger] cols[j]).name == prefix_of(flat_all(cols)[i].name),
    decreases cols.len(),
{
    let init = cols.drop_last();
    let c = cols.last();
    assert(c == cols[cols.len() - 1]);
    let a = flat_all(init);
    let f = flat_all(cols);
    if i < a.len() {
        assert(f[i] == a[i]);
        assert(nested_ok(init)) by {
            assert forall|x: int, y: int| 0 <= x < y < init.len() implies (#[trigger] init[x]).name != (#[trigger] init[y]).name by {
                assert(init[x] == cols[x] && init[y] == cols[y]);
            }
            assert forall|x: int| 0 <= x < init.len() implies {
                &&& dot_index((#[trigger] init[x]).name) < 0
                &&& init[x].data is Struct ==> {
                    &&& init[x].data->Struct_0.len() > 0
                    &&& nested_ok(init[x].data->Struct_0)
                }
            } by {
                assert(init[x] == cols[x]);
            }
        }
        lemma_flat_prefixes(init, i);
        let j = choose|j: int| 0 <= j < init.len() && (#[trigger] init[j]).name == prefix_of(a[i].name);
        assert(cols[j] == init[j]);
    } else {
        assert(f[i] == flat_column(c)[i - a.len()]);
        if c.data is Struct {
            lemma_renamed_dotted(c.name, flat_all(c.data->Struct_0), i - a.len());
        }
    }
}

/// Flattening struct columns, then gathering the dotted names back, gives the
/// same columns, provided that no name holds a `.`, that sibling names
/// differ, and that every struct column has a field.
pub proof fn lemma_unflatten_flatten(cols: Seq<ColumnV>)
    requires
        nested_ok(cols),
    ensures
        unflat(flat_all(cols)) == cols,
    decreases cols,
{
    if cols.len() == 0 {
        assert(pieces(flat_all(cols), 0) =~= Seq::<ColumnV>::empty());
        return;
    }
    let init = cols.drop_last();
    let c = cols.last();
    assert(c == cols[cols.len() - 1]);
    assert(nested_ok(init)) by {
        assert forall|x: int, y: int| 0 <= x < y < init.len() implies (#[trigger] init[x]).name != (#[trigger] init[y]).name by {
            assert(init[x] == cols[x] && init[y] == cols[y]);
        }
        assert forall|x: int| 0 <= x < init.len() implies {
            &&& dot_index((#[trigger] init[x]).name) < 0
            &&& init[x].data is Struct ==> {
                &&& init[x].data->Struct_0.len() > 0
                &&& nested_ok(init[x].data->Struct_0)
            }
        } by {
            assert(init[x] == cols[x]);
        }
    }
    lemma_unflatten_flatten(init);
    let a = flat_all(init);
    let b = flat_column(c);
    assert(flat_all(cols) == a + b);
    assert(disjoint(a, b)) by {
        assert forall|i: int, j: int|
            0 <= i < a.len() && 0 <= j < b.len() && dot_index((#[trigger] a[i]).name) >= 0 && dot_index(
                (#[trigger] b[j]).name,
            ) >= 0 implies prefix_of(a[i].name) != prefix_of(b[j].name) by {
            lemma_flat_prefixes(init, i);
            let l = choose|l: int| 0 <= l < init.len() && (#[trigger] init[l]).name == prefix_of(a[i].name);
            assert(init[l] == cols[l]);
            if c.data is Struct {
                lemma_renamed_dotted(c.name, flat_all(c.data->Struct_0), j);
            }
        }
    }
    lemma_unflat_concat(a, b);
    if c.data is Struct {
        let fs = c.data->Struct_0;
        let x = flat_all(fs);
        lemma_unflatten_flatten(fs);
        lemma_flat_nonempty(fs);
        lemma_pieces_renamed(c.name, x, x.len() as int);
        lemma_group_renamed(c.name, x);
        assert(unflat(b) == seq![c]);
    } else {
        assert(pieces(b, 0) =~= Seq::<ColumnV>::empty());
        assert(unflat(b) == seq![c]);
    }
    assert(init + seq![c] =~= cols);
}


/// Decoding any run of decodable values succeeds, and appending it to the
/// column of the values before it gives the column of both.
proof fn lemma_decode_run(v: Seq<ValueV>, t: ChTypeV, s: int, e: int)
    requires
        decodable(v, t),
        0 <= s <= e <= v.len(),
    ensures
        decodable(v.subrange(s, e), t),
        decodable(v.subrange(0, s), t),
        appended(decoded(v.subrange(0, s), t), decoded(v.subrange(s, e), t)) == Some(
            decoded(v.subrange(0, e), t),
        ),
{
    assert(v =~= v.subrange(0, e) + v.subrange(e, v.len() as int));
    lemma_decode_concat(v.subrange(0, e), v.subrange(e, v.len() as int), t);
    assert(v.subrange(0, e) =~= v.subrange(0, s) + v.subrange(s, e));
    lemma_decode_concat(v.subrange(0, s), v.subrange(s, e), t);
}

/// Row boundaries: from 0 to `h`, increasing.
pub open spec fn valid_cuts(cuts: Seq<int>, h: int) -> bool {
    &&& cuts.len() >= 1
    &&& cuts[0] == 0
    &&& cuts.last() == h
    &&& forall|k: int| 0 < k < cuts.len() ==> cuts[k - 1] <= #[trigger] cuts[k]
}

/// One block of a stream: each column's values between two row boundaries.
pub open spec fn chunk(
    names: Seq<Seq<char>>,
    values: Seq<Seq<ValueV>>,
    s: int,
    e: int,
) -> Seq<(Seq<char>, Seq<ValueV>)> {
    Seq::new(names.len(), |j: int| (names[j], values[j].subrange(s, e)))
}

/// The blocks that carry columns of values cut at the given boundaries.
pub open spec fn chunked(
    names: Seq<Seq<char>>,
    values: Seq<Seq<ValueV>>,
    cuts: Seq<int>,
) -> Seq<Seq<(Seq<char>, Seq<ValueV>)>> {
    Seq::new((cuts.len() - 1) as nat, |k: int| chunk(names, values, cuts[k], cuts[k + 1]))
}

/// The columns decoded from the first `e` values of each column.
pub open spec fn decoded_upto(
    types: Seq<(Seq<char>, ChTypeV)>,
    values: Seq<Seq<ValueV>>,
    e: int,
) -> Seq<ColDataV> {
    Seq::new(types.len(), |j: int| decoded(values[j].subrange(0, e), types[j].1))
}

pub open spec fn distinct(names: Seq<Seq<char>>) -> bool {
    forall|i: int, j: int| 0 <= i < j < names.len() ==> names[i] != names[j]
}

proof fn lemma_first_index_distinct(names: Seq<Seq<char>>, l: int)
    requires
        distinct(names),
        0 <= l < names.len(),
    ensures
        first_index(names, names[l]) == l,
{
    lemma_first_index(names, names[l]);
    let f = first_index(names, names[l]);
    if f >= 0 && f != l {
        if f < l {
            assert(names[f] != names[l]);
        }
    }
}

/// The entries `0..l` of one block, applied to the columns decoded up to
/// `s`, give the first `l` columns decoded up to `e` and the others as they were.
proof fn lemma_block_entries(
    types: Seq<(Seq<char>, ChTypeV)>,
    values: Seq<Seq<ValueV>>,
    s: int,
    e: int,
    l: int,
)
    requires
        distinct(table_names(types)),
        values.len() == types.len(),
        forall|j: int| 0 <= j < types.len() ==> decodable(#[trigger] values[j], types[j].1),
        forall|j: int| 0 <= j < types.len() ==> e <= (#[trigger] values[j]).len(),
        0 <= s <= e,
        0 <= l <= types.len(),
    ensures
        after_block(types, decoded_upto(types, values, s), chunk(table_names(types), values, s, e).subrange(0, l))
            == Some(
            Seq::new(
                types.len(),
                |j: int|
                    if j < l {
                        decoded(values[j].subrange(0, e), types[j].1)
                    } else {
                        decoded(values[j].subrange(0, s), types[j].1)
                    },
            ),
        ),
    decreases l,
{
    let names = table_names(types);
    let entries = chunk(names, values, s, e);
    if l == 0 {
        assert(entries.subrange(0, 0) =~= Seq::<(Seq<char>, Seq<ValueV>)>::empty());
        assert(decoded_upto(types, values, s) =~= Seq::new(
            types.len(),
            |j: int|
                if j < 0 {
                    decoded(values[j].subrange(0, e), types[j].1)
                } else {
                    decoded(values[j].subrange(0, s), types[j].1)
                },
        ));
    } else {
        lemma_block_entries(types, values, s, e, l - 1);
        let j = l - 1;
        assert(entries.subrange(0, l).drop_last() =~= entries.subrange(0, l - 1));
        assert(entries.subrange(0, l).last() == (names[j], values[j].subrange(s, e)));
        lemma_first_index_distinct(names, j);
        lemma_decode_run(values[j], types[j].1, s, e);
        let before = Seq::new(
            types.len(),
            |i: int|
                if i < l - 1 {
                    decoded(values[i].subrange(0, e), types[i].1)
                } else {
                    decoded(values[i].subrange(0, s), types[i].1)
                },
        );
        let after = Seq::new(
            types.len(),
            |i: int|
                if i < l {
                    decoded(values[i].subrange(0, e), types[i].1)
                } else {
                    decoded(values[i].subrange(0, s), types[i].1)
                },
        );
        assert(before[j] == decoded(values[j].subrange(0, s), types[j].1));
        assert(before.update(j, decoded(values[j].subrange(0, e), types[j].1)) =~= after);
    }
}


proof fn lemma_blocks_upto(
    types: Seq<(Seq<char>, ChTypeV)>,
    values: Seq<Seq<ValueV>>,
    cuts: Seq<int>,
    h: int,
    k: int,
)
    requires
        distinct(table_names(types)),
        values.len() == types.len(),
        forall|j: int| 0 <= j < types.len() ==> decodable(#[trigger] values[j], types[j].1),
        forall|j: int| 0 <= j < types.len() ==> (#[trigger] values[j]).len() == h,
        valid_cuts(cuts, h),
        0 <= k < cuts.len(),
    ensures
        after_blocks(types, empty_columns(types), chunked(table_names(types), values, cuts).subrange(0, k))
            == Some(decoded_upto(types, values, cuts[k])),
        0 <= cuts[k] <= h,
    decreases k,
{
    let names = table_names(types);
    let stream = chunked(names, values, cuts);
    lemma_cut_bound(cuts, h, k);
    if k == 0 {
        assert(stream.subrange(0, 0) =~= Seq::<Seq<(Seq<char>, Seq<ValueV>)>>::empty());
        assert forall|j: int| 0 <= j < types.len() implies values[j].subrange(0, 0) =~= Seq::<ValueV>::empty() by {}
        assert(empty_columns(types) =~= decoded_upto(types, values, 0));
    } else {
        lemma_blocks_upto(types, values, cuts, h, k - 1);
        assert(cuts[k - 1] <= cuts[k]);
        lemma_cut_bound(cuts, h, k);
        assert(stream.subrange(0, k).drop_last() =~= stream.subrange(0, k - 1));
        assert(stream.subrange(0, k).last() == chunk(names, values, cuts[k - 1], cuts[k]));
        lemma_block_entries(types, values, cuts[k - 1], cuts[k], types.len() as int);
        let entries = chunk(names, values, cuts[k - 1], cuts[k]);
        assert(entries.subrange(0, types.len() as int) =~= entries);
        assert(Seq::new(
            types.len(),
            |j: int|
                if j < types.len() {
                    decoded(values[j].subrange(0, cuts[k]), types[j].1)
                } else {
                    decoded(values[j].subrange(0, cuts[k - 1]), types[j].1)
                },
        ) =~= decoded_upto(types, values, cuts[k]));
    }
}

proof fn lemma_cut_bound(cuts: Seq<int>, h: int, k: int)
    requires
        valid_cuts(cuts, h),
        0 <= k < cuts.len(),
    ensures
        0 <= cuts[k] <= h,
    decreases cuts.len() - k,
{
    if k < cuts.len() - 1 {
        lemma_cut_bound(cuts, h, k + 1);
        assert(cuts[k + 1 - 1] <= cuts[k + 1]);
    }
    lemma_cut_low(cuts, h, k);
}

proof fn lemma_cut_low(cuts: Seq<int>, h: int, k: int)
    requires
        valid_cuts(cuts, h),
        0 <= k < cuts.len(),
    ensures
        0 <= cuts[k],
    decreases k,
{
    if k > 0 {
        lemma_cut_low(cuts, h, k - 1);
        assert(cuts[k - 1] <= cuts[k]);
    }
}

/// A result that receives every column's values in blocks cut at the same
/// row boundaries holds, for each column, the column of all its values:
/// building it block by block loses and reorders nothing.
pub proof fn lemma_blocks_accumulate(
    types: Seq<(Seq<char>, ChTypeV)>,
    values: Seq<Seq<ValueV>>,
    cuts: Seq<int>,
    h: int,
)
    requires
        distinct(table_names(types)),
        values.len() == types.len(),
        forall|j: int| 0 <= j < types.len() ==> decodable(#[trigger] values[j], types[j].1),
        forall|j: int| 0 <= j < types.len() ==> (#[trigger] values[j]).len() == h,
        valid_cuts(cuts, h),
    ensures
        after_blocks(types, empty_columns(types), chunked(table_names(types), values, cuts)) == Some(
            Seq::new(types.len(), |j: int| decoded(values[j], types[j].1)),
        ),
{
    let k = cuts.len() - 1;
    lemma_blocks_upto(types, values, cuts, h, k);
    let stream = chunked(table_names(types), values, cuts);
    assert(stream.subrange(0, k) =~= stream);
    assert forall|j: int| 0 <= j < types.len() implies values[j].subrange(0, h) =~= values[j] by {}
    assert(decoded_upto(types, values, h) =~= Seq::new(types.len(), |j: int| decoded(values[j], types[j].1)));
}


proof fn lemma_encoded_len(c: ColDataV, t: ChTypeV)
    requires
        encodable(c, t),
    ensures
        encoded(c, t).len() == data_len(c),
    decreases ch_depth(t),
{
    match t {
        ChTypeV::Nullable(b) => lemma_encoded_len(c, *b),
        ChTypeV::Native(DbTypeV::Nullable(m)) => lemma_encoded_len(c, ChTypeV::Native(*m)),
        ChTypeV::Native(DbTypeV::Array(m)) => {
            assert(encoded(c, t) == encoded_rows(c->List_1, *m));
        },
        _ => {
            match c {
                ColDataV::Num(_, v) => assert(encoded(c, t).len() == v.len()),
                ColDataV::Boolean(v) => assert(encoded(c, t).len() == v.len()),
                ColDataV::Utf8(v) => assert(encoded(c, t).len() == v.len()),
                ColDataV::Categorical(v) => assert(encoded(c, t).len() == v.len()),
                _ => {},
            }
        },
    }
}

proof fn lemma_filled_all(types: Seq<(Seq<char>, ChTypeV)>, d: Seq<ColDataV>)
    requires
        d.len() <= types.len(),
        forall|j: int| 0 <= j < d.len() ==> data_len(#[trigger] d[j]) > 0,
    ensures
        filled_columns(types, d) == Seq::new(d.len(), |j: int| ColumnV { name: types[j].0, data: d[j] }),
    decreases d.len(),
{
    if d.len() > 0 {
        let pre = d.drop_last();
        assert forall|j: int| 0 <= j < pre.len() implies data_len(#[trigger] pre[j]) > 0 by {
            assert(pre[j] == d[j]);
        }
        lemma_filled_all(types, pre);
        assert(d.last() == d[d.len() - 1]);
        assert(filled_columns(types, d) =~= Seq::new(
            d.len(),
            |j: int| ColumnV { name: types[j].0, data: d[j] },
        ));
    } else {
        assert(filled_columns(types, d) =~= Seq::new(
            d.len(),
            |j: int| ColumnV { name: types[j].0, data: d[j] },
        ));
    }
}

/// The types that a header block declares for a table: what the database receives.
pub open spec fn declared_types(types: Seq<(Seq<char>, ChTypeV)>) -> Seq<(Seq<char>, DbTypeV)> {
    Seq::new(types.len(), |j: int| (types[j].0, native_of(types[j].1)))
}

proof fn lemma_merged_upto(types: Seq<(Seq<char>, ChTypeV)>, l: int)
    requires
        distinct(table_names(types)),
        0 <= l <= types.len(),
    ensures
        merged(declared_types(types), types.subrange(0, l)) == Seq::new(
            types.len(),
            |j: int|
                if j < l {
                    types[j]
                } else {
                    (types[j].0, ChTypeV::Native(native_of(types[j].1)))
                },
        ),
    decreases l,
{
    let target = Seq::new(
        types.len(),
        |j: int|
            if j < l {
                types[j]
            } else {
                (types[j].0, ChTypeV::Native(native_of(types[j].1)))
            },
    );
    if l == 0 {
        assert(types.subrange(0, 0) =~= Seq::<(Seq<char>, ChTypeV)>::empty());
        assert(merged(declared_types(types), types.subrange(0, 0)) =~= target);
    } else {
        lemma_merged_upto(types, l - 1);
        let o = types.subrange(0, l);
        assert(o.drop_last() =~= types.subrange(0, l - 1));
        assert(o.last() == types[l - 1]);
        let prev = merged(declared_types(types), types.subrange(0, l - 1));
        assert(table_names(prev) =~= table_names(types));
        lemma_first_index_distinct(table_names(types), l - 1);
        assert(prev.update(l - 1, (types[l - 1].0, types[l - 1].1)) =~= target);
    }
}

/// With the table's own types given as overrides, the types of a result are the table's.
proof fn lemma_merged_table(types: Seq<(Seq<char>, ChTypeV)>)
    requires
        distinct(table_names(types)),
    ensures
        merged(declared_types(types), types) == types,
{
    lemma_merged_upto(types, types.len() as int);
    assert(types.subrange(0, types.len() as int) =~= types);
    assert(Seq::new(
        types.len(),
        |j: int|
            if j < types.len() {
                types[j]
            } else {
                (types[j].0, ChTypeV::Native(native_of(types[j].1)))
            },
    ) =~= types);
}

/// The values that a table's types give for the flat form of a dataframe.
pub open spec fn encoded_columns(flat: Seq<ColumnV>, types: Seq<(Seq<char>, ChTypeV)>) -> Seq<Seq<ValueV>> {
    Seq::new(flat.len(), |j: int| encoded(flat[j].data, types[j].1))
}

/// A dataframe inserted into a table and read back comes back as it was,
/// null cells included: its flat form, encoded with the table's types and
/// cut into blocks at any row boundaries, then received after a header block
/// that declares those types (with the table's types given as overrides),
/// decodes, keeps every column, and gathers back into the dataframe. This
/// holds for a dataframe with rows whose columns each decode to themselves
/// (see `lemma_codec_round_trip`); a dataframe without rows comes back
/// without columns.
pub proof fn lemma_insert_query_round_trip(
    df: Seq<ColumnV>,
    types: Seq<(Seq<char>, ChTypeV)>,
    cuts: Seq<int>,
    h: int,
)
    requires
        nested_ok(df),
        types.len() == flat_all(df).len(),
        forall|j: int| 0 <= j < types.len() ==> (#[trigger] types[j]).0 == flat_all(df)[j].name,
        distinct(table_names(types)),
        forall|j: int|
            0 <= j < types.len() ==> {
                let c = (#[trigger] flat_all(df)[j]).data;
                &&& well_typed(c)
                &&& encodable(c, types[j].1)
                &&& column_type_of(types[j].1) == Ok::<ColTypeV, ChTypeV>(dtype_of(c))
                &&& decodable(encoded(c, types[j].1), types[j].1)
                &&& data_len(c) == h
            },
        h > 0,
        valid_cuts(cuts, h),
    ensures
        ({
            let m = merged(declared_types(types), types);
            let d = after_blocks(
                m,
                empty_columns(m),
                chunked(table_names(types), encoded_columns(flat_all(df), types), cuts),
            );
            &&& forall|j: int| 0 <= j < m.len() ==> decodable(Seq::empty(), #[trigger] m[j].1)
            &&& d is Some
            &&& same_lengths(filled_columns(m, d->Some_0))
            &&& unflat(filled_columns(m, d->Some_0)) == df
        }),
{
    let flat = flat_all(df);
    let values = encoded_columns(flat, types);
    lemma_merged_table(types);
    assert forall|j: int| 0 <= j < types.len() implies decodable(#[trigger] values[j], types[j].1)
        && values[j].len() == h by {
        let c = flat[j].data;
        assert(types[j] == types[j]);
        lemma_encoded_len(c, types[j].1);
    }
    assert forall|j: int| 0 <= j < types.len() implies decodable(Seq::empty(), #[trigger] types[j].1) by {
        assert(values[j] =~= values[j].subrange(0, 0) + values[j]);
        lemma_decode_concat(values[j].subrange(0, 0), values[j], types[j].1);
        assert(values[j].subrange(0, 0) =~= Seq::<ValueV>::empty());
    }
    lemma_blocks_accumulate(types, values, cuts, h);
    let d = Seq::new(types.len(), |j: int| decoded(values[j], types[j].1));
    assert forall|j: int| 0 <= j < types.len() implies d[j] == flat[j].data by {
        assert(types[j] == types[j]);
        lemma_codec_round_trip(flat[j].data, types[j].1);
    }
    assert(forall|j: int| 0 <= j < d.len() ==> data_len(#[trigger] d[j]) > 0);
    lemma_filled_all(types, d);
    assert(filled_columns(types, d) =~= flat);
    lemma_unflatten_flatten(df);
}

} // verus!
