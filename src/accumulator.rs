//! Building dataframe columns from a stream of query result blocks.

use vstd::prelude::*;

use crate::blocks::{data_view, types_view, Block};
use crate::codec::{ch_depth, decodable, decode, decode_failure, decoded};
use crate::columns::{append_data, appended, data_len, ColDataV, Column, ColumnData, ColumnV, columns_view, lemma_columns_view_push};
use crate::errors::Error;
use crate::structs::unflat;
use crate::table::{table_names, table_view};
use crate::types::{column_type_of, ChTypeV, ClickhouseType, DbTypeV};
use crate::values::{values_view, Value, ValueV};

verus! {

/// The first index of `k` in `names`, or -1.
pub open spec fn first_index(names: Seq<Seq<char>>, k: Seq<char>) -> int
    decreases names.len(),
{
    if names.len() == 0 {
        -1
    } else if names[0] == k {
        0
    } else {
        let r = first_index(names.drop_first(), k);
        if r < 0 {
            -1
        } else {
            r + 1
        }
    }
}

pub proof fn lemma_first_index(names: Seq<Seq<char>>, k: Seq<char>)
    ensures
        first_index(names, k) < names.len(),
        first_index(names, k) >= 0 ==> names[first_index(names, k)] == k,
        first_index(names, k) >= 0 ==> forall|j: int| 0 <= j < first_index(names, k) ==> names[j] != k,
        first_index(names, k) < 0 ==> forall|j: int| 0 <= j < names.len() ==> names[j] != k,
    decreases names.len(),
{
    if names.len() > 0 && names[0] != k {
        lemma_first_index(names.drop_first(), k);
        assert forall|j: int| 1 <= j < names.len() implies names[j] == names.drop_first()[j - 1] by {}
    }
}

/// A type given for column `k`: it replaces the type of `k` in place, or comes last.
pub open spec fn put(s: Seq<(Seq<char>, ChTypeV)>, k: Seq<char>, v: ChTypeV) -> Seq<(Seq<char>, ChTypeV)> {
    let i = first_index(table_names(s), k);
    if i >= 0 {
        s.update(i, (k, v))
    } else {
        s.push((k, v))
    }
}

/// The types of a result: those that the server declares, with those given by the caller put over them.
pub open spec fn merged(
    declared: Seq<(Seq<char>, DbTypeV)>,
    overrides: Seq<(Seq<char>, ChTypeV)>,
) -> Seq<(Seq<char>, ChTypeV)>
    decreases overrides.len(),
{
    if overrides.len() == 0 {
        Seq::new(declared.len(), |i: int| (declared[i].0, ChTypeV::Native(declared[i].1)))
    } else {
        put(merged(declared, overrides.drop_last()), overrides.last().0, overrides.last().1)
    }
}

/// The columns after one block entry: the values of column `name`, decoded,
/// appended to it; `None` for an unknown column, values that do not decode,
/// or columns that cannot be appended.
pub open spec fn after_entry(
    types: Seq<(Seq<char>, ChTypeV)>,
    data: Seq<ColDataV>,
    name: Seq<char>,
    values: Seq<ValueV>,
) -> Option<Seq<ColDataV>> {
    let i = first_index(table_names(types), name);
    if i < 0 || !decodable(values, types[i].1) {
        None
    } else {
        match appended(data[i], decoded(values, types[i].1)) {
            Some(c) => Some(data.update(i, c)),
            None => None,
        }
    }
}

/// The error that one block entry gives, when it fails: `MissingColumnLocal`
/// for an undeclared column, the decoding error for values that do not
/// decode, `MismatchingSeriesType` for columns that cannot be appended.
pub open spec fn entry_failure(
    types: Seq<(Seq<char>, ChTypeV)>,
    name: Seq<char>,
    values: Seq<ValueV>,
    e: Error,
) -> bool {
    let i = first_index(table_names(types), name);
    if i < 0 {
        e matches Error::MissingColumnLocal(x) && x@ == name
    } else if !decodable(values, types[i].1) {
        decode_failure(e, values, types[i].1)
    } else {
        e is MismatchingSeriesType
    }
}

/// The error that a block gives: that of its first entry that fails.
pub open spec fn block_failure(
    types: Seq<(Seq<char>, ChTypeV)>,
    data: Seq<ColDataV>,
    entries: Seq<(Seq<char>, Seq<ValueV>)>,
    e: Error,
) -> bool {
    exists|l: int|
        0 <= l < entries.len() && after_block(types, data, entries.subrange(0, l)) is Some
            && after_entry(
            types,
            after_block(types, data, entries.subrange(0, l))->Some_0,
            entries[l].0,
            entries[l].1,
        ) is None && entry_failure(types, entries[l].0, entries[l].1, e)
}

/// What a block gives the result: its columns, or nothing when it holds no rows.
pub open spec fn block_entries(b: Block) -> Seq<(Seq<char>, Seq<ValueV>)> {
    if b.rows == 0 {
        Seq::empty()
    } else {
        data_view(b.column_data@)
    }
}

/// The columns after each entry of a block, in order.
pub open spec fn after_block(
    types: Seq<(Seq<char>, ChTypeV)>,
    data: Seq<ColDataV>,
    entries: Seq<(Seq<char>, Seq<ValueV>)>,
) -> Option<Seq<ColDataV>>
    decreases entries.len(),
{
    if entries.len() == 0 {
        Some(data)
    } else {
        match after_block(types, data, entries.drop_last()) {
            Some(d) => after_entry(types, d, entries.last().0, entries.last().1),
            None => None,
        }
    }
}

/// The columns that received rows, in order.
pub open spec fn filled_columns(types: Seq<(Seq<char>, ChTypeV)>, data: Seq<ColDataV>) -> Seq<ColumnV>
    decreases data.len(),
{
    if data.len() == 0 {
        Seq::empty()
    } else {
        let rest = filled_columns(types, data.drop_last());
        if data_len(data.last()) > 0 {
            rest.push(ColumnV { name: types[data.len() - 1].0, data: data.last() })
        } else {
            rest
        }
    }
}

/// Whether all columns have one length.
pub open spec fn same_lengths(cols: Seq<ColumnV>) -> bool {
    forall|i: int| 0 <= i < cols.len() ==> data_len(#[trigger] cols[i].data) == data_len(cols[0].data)
}

/// The index of the first type named `k`.
pub(crate) fn position_of(types: &Vec<(String, ClickhouseType)>, k: &String) -> (r: Option<usize>)
    ensures
        match r {
            Some(j) => j < types@.len() && j as int == first_index(table_names(table_view(types@)), k@),
            None => first_index(table_names(table_view(types@)), k@) < 0,
        },
{
    let ghost names = table_names(table_view(types@));
    proof {
        lemma_first_index(names, k@);
    }
    let mut j: usize = 0;
    while j < types.len()
        invariant
            names == table_names(table_view(types@)),
            first_index(names, k@) < names.len(),
            first_index(names, k@) >= 0 ==> names[first_index(names, k@)] == k@,
            first_index(names, k@) >= 0 ==> forall|l: int| 0 <= l < first_index(names, k@) ==> names[l] != k@,
            first_index(names, k@) < 0 ==> forall|l: int| 0 <= l < names.len() ==> names[l] != k@,
            j <= types@.len(),
            forall|l: int| 0 <= l < j ==> names[l] != k@,
        decreases types@.len() - j,
    {
        if types[j].0 == *k {
            assert(names[j as int] == k@);
            return Some(j);
        }
        j = j + 1;
    }
    None
}

/// `MismatchingLengths` with the length of each column, in order.
pub open spec fn lengths_failure<T>(cols: Seq<ColumnV>, r: Result<T, Error>) -> bool {
    &&& r matches Err(Error::MismatchingLengths(l))
    &&& l@.len() == cols.len()
    &&& forall|i: int| 0 <= i < cols.len() ==> l@[i] == data_len(#[trigger] cols[i].data)
}

/// The error of a stream of blocks: that of its first block that fails.
pub open spec fn stream_failure(
    types: Seq<(Seq<char>, ChTypeV)>,
    data: Seq<ColDataV>,
    blocks: Seq<Seq<(Seq<char>, Seq<ValueV>)>>,
    e: Error,
) -> bool {
    exists|k: int|
        0 <= k < blocks.len() && after_blocks(types, data, blocks.subrange(0, k)) is Some
            && after_block(types, after_blocks(types, data, blocks.subrange(0, k))->Some_0, blocks[k])
            is None && block_failure(
            types,
            after_blocks(types, data, blocks.subrange(0, k))->Some_0,
            blocks[k],
            e,
        )
}

/// The columns of a query result while its blocks arrive.
pub struct Accumulator {
    types: Vec<(String, ClickhouseType)>,
    columns: Vec<ColumnData>,
}

impl Accumulator {
    /// The types of the result's columns, by name, in order.
    pub closed spec fn types(&self) -> Seq<(Seq<char>, ChTypeV)> {
        table_view(self.types@)
    }

    /// The cells of each column so far.
    pub closed spec fn data(&self) -> Seq<ColDataV> {
        Seq::new(self.columns@.len(), |i: int| self.columns@[i]@)
    }

    pub closed spec fn wf(&self) -> bool {
        self.types@.len() == self.columns@.len()
    }

    /// Starts a result from its first block, whose column types are
    /// authoritative, with the caller's `overrides` put over them; each
    /// column starts empty. A type with no column type gives
    /// `UnsupportedClickhouseType`.
    pub fn start(initial: &Block, overrides: Vec<(String, ClickhouseType)>) -> (r: Result<Accumulator, Error>)
        ensures
            ({
                let m = merged(types_view(initial.column_types@), table_view(overrides@));
                &&& r is Ok <==> forall|j: int| 0 <= j < m.len() ==> decodable(Seq::empty(), #[trigger] m[j].1)
                &&& r is Err ==> exists|j: int|
                    0 <= j < m.len() && column_type_of(m[j].1) is Err && (forall|l: int|
                        0 <= l < j ==> column_type_of((#[trigger] m[l]).1) is Ok) && (r matches Err(
                        Error::UnsupportedClickhouseType(x),
                    ) && x@ == column_type_of(m[j].1)->Err_0)
                &&& r is Ok ==> {
                    &&& r->Ok_0.wf()
                    &&& r->Ok_0.types() == m
                    &&& r->Ok_0.data() == Seq::new(m.len(), |j: int| decoded(Seq::empty(), m[j].1))
                }
            }),
    {
        let ghost dv = types_view(initial.column_types@);
        let ghost ov = table_view(overrides@);
        let mut types: Vec<(String, ClickhouseType)> = Vec::new();
        let mut i: usize = 0;
        while i < initial.column_types.len()
            invariant
                dv == types_view(initial.column_types@),
                i <= dv.len(),
                table_view(types@) =~= Seq::new(i as nat, |k: int| (dv[k].0, ChTypeV::Native(dv[k].1))),
            decreases dv.len() - i,
        {
            let entry = (
                initial.column_types[i].0.clone(),
                ClickhouseType::Native(initial.column_types[i].1.clone()),
            );
            proof {
                lemma_table_view_push(types@, entry);
            }
            types.push(entry);
            i = i + 1;
        }
        let mut i: usize = 0;
        assert(ov.subrange(0, 0) =~= Seq::<(Seq<char>, ChTypeV)>::empty());
        while i < overrides.len()
            invariant
                ov == table_view(overrides@),
                i <= ov.len(),
                table_view(types@) == merged(dv, ov.subrange(0, i as int)),
            decreases ov.len() - i,
        {
            assert(ov.subrange(0, i + 1).drop_last() =~= ov.subrange(0, i as int));
            let (k, v) = &overrides[i];
            let ghost before = table_view(types@);
            if let Some(j) = position_of(&types, k) {
                let entry = (k.clone(), v.clone());
                let _old = types.remove(j);
                types.insert(j, entry);
                assert(table_view(types@) =~= before.update(j as int, (k@, v@)));
            } else {
                let entry = (k.clone(), v.clone());
                proof {
                    lemma_table_view_push(types@, entry);
                }
                types.push(entry);
            }
            i = i + 1;
        }
        assert(ov.subrange(0, ov.len() as int) =~= ov);
        let ghost m = table_view(types@);
        let mut columns: Vec<ColumnData> = Vec::new();
        let empty: Vec<Value> = Vec::new();
        assert(crate::values::values_view(empty@) =~= Seq::<ValueV>::empty());
        let mut j: usize = 0;
        while j < types.len()
            invariant
                m == table_view(types@),
                dv == types_view(initial.column_types@),
                ov == table_view(overrides@),
                m == merged(dv, ov),
                crate::values::values_view(empty@) == Seq::<ValueV>::empty(),
                j <= m.len(),
                columns@.len() == j,
                forall|l: int| 0 <= l < j ==> decodable(Seq::empty(), #[trigger] m[l].1),
                forall|l: int| 0 <= l < j ==> (#[trigger] columns@[l])@ == decoded(Seq::empty(), m[l].1),
            decreases m.len() - j,
        {
            proof {
                lemma_decodable_empty(m[j as int].1);
            }
            let c = match decode(&empty, &types[j].1) {
                Ok(c) => c,
                Err(e) => {
                    assert(!decodable(Seq::empty(), m[j as int].1));
                    assert forall|l: int| 0 <= l < j implies column_type_of((#[trigger] m[l]).1) is Ok by {
                        lemma_decodable_empty(m[l].1);
                    }
                    return Err(e);
                },
            };
            columns.push(c);
            j = j + 1;
        }
        let r = Accumulator { types, columns };
        assert(r.data() =~= Seq::new(m.len(), |j: int| decoded(Seq::empty(), m[j].1)));
        Ok(r)
    }

    /// Adds the rows of a block: each of its columns is decoded with the
    /// result's type for it and appended. A column that the result lacks
    /// gives `MissingColumnLocal`.
    pub fn push_block(&mut self, block: &Block) -> (r: Result<(), Error>)
        requires
            old(self).wf(),
        ensures
            r is Ok ==> final(self).wf(),
            final(self).types() == old(self).types(),
            match after_block(old(self).types(), old(self).data(), block_entries(*block)) {
                Some(d) => r is Ok && final(self).data() == d,
                None => r is Err && block_failure(
                    old(self).types(),
                    old(self).data(),
                    block_entries(*block),
                    r->Err_0,
                ),
            },
    {
        if block.rows == 0 {
            return Ok(());
        }
        let ghost tv = self.types();
        let ghost ev = data_view(block.column_data@);
        let ghost d0 = self.data();
        let mut e: usize = 0;
        assert(ev == block_entries(*block));
        assert(ev.subrange(0, 0) =~= Seq::<(Seq<char>, Seq<ValueV>)>::empty());
        while e < block.column_data.len()
            invariant
                self.wf(),
                tv == self.types(),
                tv == old(self).types(),
                d0 == old(self).data(),
                ev == data_view(block.column_data@),
                ev == block_entries(*block),
                e <= ev.len(),
                after_block(tv, d0, ev.subrange(0, e as int)) == Some(self.data()),
            decreases ev.len() - e,
        {
            assert(ev.subrange(0, e + 1).drop_last() =~= ev.subrange(0, e as int));
            assert(ev.subrange(0, e + 1).last() == ev[e as int]);
            assert(ev[e as int].0 == block.column_data@[e as int].0@);
            let (name, values) = &block.column_data[e];
            let ghost before = self.data();
            let j = match position_of(&self.types, name) {
                Some(j) => j,
                None => {
                    let err = Error::MissingColumnLocal(name.clone());
                    proof {
                        lemma_after_block_none(tv, d0, ev, e as int + 1);
                        assert(entry_failure(tv, ev[e as int].0, ev[e as int].1, err));
                        assert(block_failure(tv, d0, ev, err));
                    }
                    return Err(err);
                },
            };
            let piece = match decode(values, &self.types[j].1) {
                Ok(p) => p,
                Err(err) => {
                    proof {
                        lemma_after_block_none(tv, d0, ev, e as int + 1);
                        assert(ev[e as int].1 == values_view(values@));
                        assert(entry_failure(tv, ev[e as int].0, ev[e as int].1, err));
                        assert(block_failure(tv, d0, ev, err));
                    }
                    return Err(err);
                },
            };
            let old_col = self.columns.remove(j);
            assert(old_col@ == before[j as int]);
            let col = match append_data(old_col, piece) {
                Ok(c) => c,
                Err(err) => {
                    proof {
                        lemma_after_block_none(tv, d0, ev, e as int + 1);
                        assert(ev[e as int].1 == values_view(values@));
                        assert(entry_failure(tv, ev[e as int].0, ev[e as int].1, err));
                        assert(block_failure(tv, d0, ev, err));
                    }
                    return Err(err);
                },
            };
            self.columns.insert(j, col);
            assert(self.data() =~= before.update(j as int, col@));
            e = e + 1;
        }
        assert(ev.subrange(0, ev.len() as int) =~= ev);
        Ok(())
    }

    /// The columns that received rows, in order; columns that no block
    /// filled are left out. Columns of different lengths give
    /// `MismatchingLengths` with their lengths.
    pub fn finish(self) -> (r: Result<Vec<Column>, Error>)
        requires
            self.wf(),
        ensures
            same_lengths(filled_columns(self.types(), self.data())) ==> r is Ok && columns_view(
                r->Ok_0@,
            ) == filled_columns(self.types(), self.data()),
            !same_lengths(filled_columns(self.types(), self.data())) ==> lengths_failure(
                filled_columns(self.types(), self.data()),
                r,
            ),
    {
        let ghost tv = self.types();
        let ghost dv = self.data();
        let Accumulator { types, mut columns } = self;
        let mut out: Vec<Column> = Vec::new();
        let mut lengths: Vec<usize> = Vec::new();
        let mut i: usize = 0;
        let n = columns.len();
        assert(dv.subrange(0, 0) =~= Seq::<ColDataV>::empty());
        while columns.len() > 0
            invariant
                tv == table_view(types@),
                tv == self.types(),
                dv == self.data(),
                types@.len() == n,
                dv.len() == n,
                i + columns@.len() == n,
                forall|l: int| 0 <= l < columns@.len() ==> (#[trigger] columns@[l])@ == dv[i + l],
                columns_view(out@) == filled_columns(tv, dv.subrange(0, i as int)),
                lengths@.len() == out@.len(),
                forall|l: int| 0 <= l < out@.len() ==> #[trigger] lengths@[l] == data_len(columns_view(out@)[l].data),
            decreases columns@.len(),
        {
            assert(dv.subrange(0, i + 1).drop_last() =~= dv.subrange(0, i as int));
            let c = columns.remove(0);
            assert(c@ == dv[i as int]);
            assert(table_view(types@)[i as int].0 == types@[i as int].0@);
            let len = c.len();
            if len > 0 {
                let col = Column { name: types[i].0.clone(), data: c };
                proof {
                    lemma_columns_view_push(out@, col);
                }
                out.push(col);
                lengths.push(len);
            }
            i = i + 1;
        }
        assert(dv.subrange(0, n as int) =~= dv);
        let ghost fv = columns_view(out@);
        let mut k: usize = 0;
        while k < lengths.len()
            invariant
                lengths@.len() == fv.len(),
                fv == columns_view(out@),
                fv == filled_columns(tv, dv),
                tv == self.types(),
                dv == self.data(),
                forall|l: int| 0 <= l < fv.len() ==> #[trigger] lengths@[l] == data_len(fv[l].data),
                k <= lengths@.len(),
                forall|l: int| 0 <= l < k ==> data_len(#[trigger] fv[l].data) == data_len(fv[0].data),
            decreases lengths@.len() - k,
        {
            if lengths[k] != lengths[0] {
                assert(!same_lengths(fv));
                return Err(Error::MismatchingLengths(lengths));
            }
            k = k + 1;
        }
        Ok(out)
    }
}

/// The columns after each block, in order.
pub open spec fn after_blocks(
    types: Seq<(Seq<char>, ChTypeV)>,
    data: Seq<ColDataV>,
    blocks: Seq<Seq<(Seq<char>, Seq<ValueV>)>>,
) -> Option<Seq<ColDataV>>
    decreases blocks.len(),
{
    if blocks.len() == 0 {
        Some(data)
    } else {
        match after_blocks(types, data, blocks.drop_last()) {
            Some(d) => after_block(types, d, blocks.last()),
            None => None,
        }
    }
}

pub open spec fn blocks_data(bs: Seq<Block>) -> Seq<Seq<(Seq<char>, Seq<ValueV>)>> {
    Seq::new(bs.len(), |i: int| block_entries(bs[i]))
}

/// The empty columns that a result starts from.
pub open spec fn empty_columns(m: Seq<(Seq<char>, ChTypeV)>) -> Seq<ColDataV> {
    Seq::new(m.len(), |j: int| decoded(Seq::empty(), m[j].1))
}

/// The dataframe of a query result, from its blocks: the first one declares
/// the columns (its types, with `overrides` put over them), each later one
/// gives rows. Columns that receive no rows are left out, and the columns
/// left are gathered into struct columns by their dotted names. No block at
/// all gives `MissingInitialBlock`.
pub fn get_df_from_blocks(blocks: Vec<Block>, overrides: Vec<(String, ClickhouseType)>) -> (r: Result<
    Vec<Column>,
    Error,
>)
    ensures
        blocks@.len() == 0 ==> r matches Err(Error::MissingInitialBlock),
        blocks@.len() > 0 ==> {
            let m = merged(types_view(blocks@[0].column_types@), table_view(overrides@));
            let d = after_blocks(m, empty_columns(m), blocks_data(blocks@).drop_first());
            &&& (forall|j: int| 0 <= j < m.len() ==> decodable(Seq::empty(), #[trigger] m[j].1))
                && d is Some && same_lengths(filled_columns(m, d->Some_0)) ==> r is Ok
                && columns_view(r->Ok_0@) == unflat(filled_columns(m, d->Some_0))
            &&& r is Ok ==> (forall|j: int| 0 <= j < m.len() ==> decodable(Seq::empty(), #[trigger] m[j].1))
                && d is Some && same_lengths(filled_columns(m, d->Some_0))
            &&& !(forall|j: int| 0 <= j < m.len() ==> decodable(Seq::empty(), #[trigger] m[j].1))
                ==> exists|j: int|
                0 <= j < m.len() && column_type_of(m[j].1) is Err && (forall|l: int|
                    0 <= l < j ==> column_type_of((#[trigger] m[l]).1) is Ok) && (r matches Err(
                    Error::UnsupportedClickhouseType(x),
                ) && x@ == column_type_of(m[j].1)->Err_0)
            &&& (forall|j: int| 0 <= j < m.len() ==> decodable(Seq::empty(), #[trigger] m[j].1))
                && d is None ==> r is Err && stream_failure(
                m,
                empty_columns(m),
                blocks_data(blocks@).drop_first(),
                r->Err_0,
            )
            &&& (forall|j: int| 0 <= j < m.len() ==> decodable(Seq::empty(), #[trigger] m[j].1))
                && d is Some && !same_lengths(filled_columns(m, d->Some_0)) ==> lengths_failure(
                filled_columns(m, d->Some_0),
                r,
            )
        },
{
    if blocks.len() == 0 {
        return Err(Error::MissingInitialBlock);
    }
    let ghost bd = blocks_data(blocks@);
    let mut acc = Accumulator::start(&blocks[0], overrides)?;
    let ghost m = acc.types();
    let ghost d0 = acc.data();
    assert(d0 == empty_columns(m));
    let mut i: usize = 1;
    assert(bd.drop_first().subrange(0, 0) =~= Seq::<Seq<(Seq<char>, Seq<ValueV>)>>::empty());
    while i < blocks.len()
        invariant
            bd == blocks_data(blocks@),
            1 <= i <= blocks@.len(),
            acc.wf(),
            acc.types() == m,
            m == merged(types_view(blocks@[0].column_types@), table_view(overrides@)),
            d0 == empty_columns(m),
            forall|j: int| 0 <= j < m.len() ==> decodable(Seq::empty(), #[trigger] m[j].1),
            after_blocks(m, d0, bd.drop_first().subrange(0, i - 1)) == Some(acc.data()),
        decreases blocks@.len() - i,
    {
        let ghost sub = bd.drop_first().subrange(0, i as int);
        assert(sub.drop_last() =~= bd.drop_first().subrange(0, i - 1));
        assert(sub.last() == block_entries(blocks@[i as int]));
        match acc.push_block(&blocks[i]) {
            Ok(()) => {},
            Err(e) => {
                proof {
                    lemma_after_blocks_none(m, d0, bd.drop_first(), i as int);
                    assert(bd.drop_first()[i - 1] == block_entries(blocks@[i as int]));
                    assert(bd.drop_first().subrange(0, i - 1) == sub.drop_last());
                    assert(stream_failure(m, d0, bd.drop_first(), e));
                }
                return Err(e);
            },
        }
        i = i + 1;
    }
    assert(bd.drop_first().subrange(0, blocks@.len() - 1) =~= bd.drop_first());
    let flat = acc.finish()?;
    Ok(crate::structs::unflatten(&flat))
}

/// Once a block fails, the whole result fails.
pub proof fn lemma_after_blocks_none(
    types: Seq<(Seq<char>, ChTypeV)>,
    data: Seq<ColDataV>,
    blocks: Seq<Seq<(Seq<char>, Seq<ValueV>)>>,
    k: int,
)
    requires
        0 <= k <= blocks.len(),
        after_blocks(types, data, blocks.subrange(0, k)) is None,
    ensures
        after_blocks(types, data, blocks) is None,
    decreases blocks.len() - k,
{
    if k < blocks.len() {
        assert(blocks.subrange(0, k + 1).drop_last() =~= blocks.subrange(0, k));
        lemma_after_blocks_none(types, data, blocks, k + 1);
    } else {
        assert(blocks.subrange(0, k) =~= blocks);
    }
}

/// Columns that receive no rows are left out: every column of a result has
/// rows, and a result whose blocks hold no rows has no columns at all.
pub proof fn lemma_unfilled_columns_dropped(types: Seq<(Seq<char>, ChTypeV)>, data: Seq<ColDataV>)
    ensures
        forall|i: int|
            0 <= i < filled_columns(types, data).len() ==> data_len(
                (#[trigger] filled_columns(types, data)[i]).data,
            ) > 0,
        (forall|j: int| 0 <= j < data.len() ==> data_len(#[trigger] data[j]) == 0) ==> filled_columns(
            types,
            data,
        ).len() == 0,
        forall|i: int|
            0 <= i < filled_columns(types, data).len() ==> exists|j: int|
                0 <= j < data.len() && data_len(data[j]) > 0 && (#[trigger] filled_columns(types, data)[i]).name
                    == types[j].0,
    decreases data.len(),
{
    if data.len() > 0 {
        lemma_unfilled_columns_dropped(types, data.drop_last());
        if forall|j: int| 0 <= j < data.len() ==> data_len(#[trigger] data[j]) == 0 {
            assert forall|j: int| 0 <= j < data.drop_last().len() implies data_len(
                #[trigger] data.drop_last()[j],
            ) == 0 by {
                assert(data.drop_last()[j] == data[j]);
            }
            assert(data_len(data[data.len() - 1]) == 0);
        }
    }
}

/// No values decode exactly for the types that have a column type.
pub proof fn lemma_decodable_empty(t: ChTypeV)
    ensures
        decodable(Seq::empty(), t) <==> column_type_of(t) is Ok,
    decreases ch_depth(t),
{
    match t {
        ChTypeV::Nullable(b) => lemma_decodable_empty(*b),
        ChTypeV::Native(DbTypeV::Nullable(m)) => lemma_decodable_empty(ChTypeV::Native(*m)),
        _ => {},
    }
}

proof fn lemma_decoded_empty_len(t: ChTypeV)
    ensures
        data_len(decoded(Seq::empty(), t)) == 0,
    decreases ch_depth(t),
{
    match t {
        ChTypeV::Nullable(b) => lemma_decoded_empty_len(*b),
        ChTypeV::Native(DbTypeV::Nullable(m)) => lemma_decoded_empty_len(ChTypeV::Native(*m)),
        ChTypeV::Native(DbTypeV::Array(m)) => {
            assert(crate::codec::decoded_rows(Seq::empty(), *m).len() == 0);
        },
        ChTypeV::Native(DbTypeV::Num(_)) => {
            assert(crate::codec::num_cells(Seq::empty()).len() == 0);
        },
        ChTypeV::Native(DbTypeV::String) | ChTypeV::Native(DbTypeV::LowCardinality(_)) => {
            assert(crate::codec::text_cells(Seq::empty()).len() == 0);
        },
        ChTypeV::Native(DbTypeV::Uuid) => {
            assert(crate::codec::uuid_cells(Seq::empty()).len() == 0);
        },
        ChTypeV::Bool => {
            assert(crate::codec::bool_cells(Seq::empty()).len() == 0);
        },
        _ => {},
    }
}

/// A result whose later blocks all hold no rows keeps its empty columns, and
/// then has no columns at all: a query that matches no row gives a dataframe
/// without rows and without columns.
pub proof fn lemma_rowless_stream_gives_no_columns(
    types: Seq<(Seq<char>, ChTypeV)>,
    blocks: Seq<Seq<(Seq<char>, Seq<ValueV>)>>,
)
    requires
        forall|k: int| 0 <= k < blocks.len() ==> (#[trigger] blocks[k]).len() == 0,
    ensures
        after_blocks(types, empty_columns(types), blocks) == Some(empty_columns(types)),
        filled_columns(types, empty_columns(types)).len() == 0,
        unflat(filled_columns(types, empty_columns(types))) == Seq::<ColumnV>::empty(),
    decreases blocks.len(),
{
    if blocks.len() > 0 {
        lemma_rowless_stream_gives_no_columns(types, blocks.drop_last());
        assert(blocks.last() == blocks[blocks.len() - 1]);
    }
    assert forall|j: int| 0 <= j < empty_columns(types).len() implies data_len(
        #[trigger] empty_columns(types)[j],
    ) == 0 by {
        lemma_decoded_empty_len(types[j].1);
    }
    lemma_unfilled_columns_dropped(types, empty_columns(types));
    assert(filled_columns(types, empty_columns(types)) =~= Seq::<ColumnV>::empty());
    assert(crate::structs::pieces(Seq::<ColumnV>::empty(), 0) =~= Seq::<ColumnV>::empty());
}

/// Once an entry of a block fails, the whole block fails.
pub proof fn lemma_after_block_none(
    types: Seq<(Seq<char>, ChTypeV)>,
    data: Seq<ColDataV>,
    entries: Seq<(Seq<char>, Seq<ValueV>)>,
    k: int,
)
    requires
        0 <= k <= entries.len(),
        after_block(types, data, entries.subrange(0, k)) is None,
    ensures
        after_block(types, data, entries) is None,
    decreases entries.len() - k,
{
    if k < entries.len() {
        assert(entries.subrange(0, k + 1).drop_last() =~= entries.subrange(0, k));
        lemma_after_block_none(types, data, entries, k + 1);
    } else {
        assert(entries.subrange(0, k) =~= entries);
    }
}

pub proof fn lemma_table_view_push(s: Seq<(String, ClickhouseType)>, x: (String, ClickhouseType))
    ensures
        table_view(s.push(x)) == table_view(s).push((x.0@, x.1@)),
{
    assert(table_view(s.push(x)) =~= table_view(s).push((x.0@, x.1@)));
}

} // verus!
