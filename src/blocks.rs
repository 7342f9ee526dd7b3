//! Blocks, the unit of exchange with the database, and the assembly of a
//! dataframe into bounded blocks for insertion.

use vstd::prelude::*;

use crate::types::{DbType, DbTypeV};
use crate::values::{lemma_values_view_push, values_view, Value, ValueV};

verus! {

/// The most rows that one inserted block holds.
pub const MAX_BLOCK_ROWS: usize = 200000;

/// A batch of rows in columnar form.
#[derive(Debug, PartialEq, Eq)]
pub struct Block {
    /// The number of rows.
    pub rows: u64,
    /// The type of each column, by name, in order.
    pub column_types: Vec<(String, DbType)>,
    /// The values of each column, by name, in order.
    pub column_data: Vec<(String, Vec<Value>)>,
}

pub open spec fn types_view(s: Seq<(String, DbType)>) -> Seq<(Seq<char>, DbTypeV)> {
    Seq::new(s.len(), |i: int| (s[i].0@, s[i].1@))
}

pub open spec fn data_view(s: Seq<(String, Vec<Value>)>) -> Seq<(Seq<char>, Seq<ValueV>)> {
    Seq::new(s.len(), |i: int| (s[i].0@, values_view(s[i].1@)))
}

pub open spec fn defaults_view(s: Seq<(String, Value)>) -> Seq<(Seq<char>, ValueV)> {
    Seq::new(s.len(), |i: int| (s[i].0@, s[i].1@))
}

pub proof fn lemma_data_view_push(s: Seq<(String, Vec<Value>)>, x: (String, Vec<Value>))
    ensures
        data_view(s.push(x)) == data_view(s).push((x.0@, values_view(x.1@))),
{
    assert(data_view(s.push(x)) =~= data_view(s).push((x.0@, values_view(x.1@))));
}

pub proof fn lemma_types_view_push(s: Seq<(String, DbType)>, x: (String, DbType))
    ensures
        types_view(s.push(x)) == types_view(s).push((x.0@, x.1@)),
{
    assert(types_view(s.push(x)) =~= types_view(s).push((x.0@, x.1@)));
}

impl View for Block {
    type V = (u64, Seq<(Seq<char>, DbTypeV)>, Seq<(Seq<char>, Seq<ValueV>)>);

    open spec fn view(&self) -> Self::V {
        (self.rows, types_view(self.column_types@), data_view(self.column_data@))
    }
}

impl Clone for Block {
    fn clone(&self) -> (r: Block)
        ensures
            r@ == self@,
    {
        let mut types: Vec<(String, DbType)> = Vec::new();
        let mut i: usize = 0;
        while i < self.column_types.len()
            invariant
                i <= self.column_types@.len(),
                types_view(types@) =~= types_view(self.column_types@).subrange(0, i as int),
            decreases self.column_types@.len() - i,
        {
            let entry = (self.column_types[i].0.clone(), self.column_types[i].1.clone());
            proof {
                lemma_types_view_push(types@, entry);
            }
            types.push(entry);
            i = i + 1;
        }
        let mut data: Vec<(String, Vec<Value>)> = Vec::new();
        let mut j: usize = 0;
        while j < self.column_data.len()
            invariant
                j <= self.column_data@.len(),
                data_view(data@) =~= data_view(self.column_data@).subrange(0, j as int),
            decreases self.column_data@.len() - j,
        {
            let (name, values) = &self.column_data[j];
            let mut vs: Vec<Value> = Vec::new();
            let mut k: usize = 0;
            while k < values.len()
                invariant
                    k <= values@.len(),
                    values_view(vs@) =~= values_view(values@).subrange(0, k as int),
                decreases values@.len() - k,
            {
                let x = values[k].clone();
                proof {
                    lemma_values_view_push(vs@, x);
                }
                vs.push(x);
                k = k + 1;
            }
            assert(values_view(vs@) =~= values_view(values@));
            let entry = (name.clone(), vs);
            proof {
                lemma_data_view_push(data@, entry);
            }
            data.push(entry);
            j = j + 1;
        }
        assert(types_view(types@) =~= types_view(self.column_types@));
        assert(data_view(data@) =~= data_view(self.column_data@));
        Block { rows: self.rows, column_types: types, column_data: data }
    }
}

/// The names of columns given with their values.
pub open spec fn data_names(s: Seq<(Seq<char>, Seq<ValueV>)>) -> Seq<Seq<char>> {
    Seq::new(s.len(), |i: int| s[i].0)
}

/// The constant columns of `rows` rows that the defaults add, leaving out
/// those named in `taken`.
pub open spec fn default_columns(
    defaults: Seq<(Seq<char>, ValueV)>,
    taken: Seq<Seq<char>>,
    rows: nat,
) -> Seq<(Seq<char>, Seq<ValueV>)>
    decreases defaults.len(),
{
    if defaults.len() == 0 {
        Seq::empty()
    } else {
        let rest = default_columns(defaults.drop_last(), taken, rows);
        let (k, v) = defaults.last();
        if taken.contains(k) {
            rest
        } else {
            rest.push((k, Seq::new(rows, |r: int| v)))
        }
    }
}

/// Cuts encoded columns into blocks of at most [`MAX_BLOCK_ROWS`] rows, and
/// fills in the constant columns of the defaults.
pub struct BlockAssembler {
    column_types: Vec<(String, DbType)>,
    columns: Vec<(String, Vec<Value>)>,
    defaults: Vec<(String, Value)>,
    height: usize,
    pos: usize,
}

/// The length of the shortest column, 0 when there is none.
pub open spec fn shortest(cols: Seq<(Seq<char>, Seq<ValueV>)>) -> nat
    decreases cols.len(),
{
    if cols.len() == 0 {
        0
    } else if cols.len() == 1 {
        cols[0].1.len()
    } else {
        let r = shortest(cols.drop_last());
        if cols.last().1.len() < r {
            cols.last().1.len()
        } else {
            r
        }
    }
}

pub proof fn lemma_shortest_le(cols: Seq<(Seq<char>, Seq<ValueV>)>, i: int)
    requires
        0 <= i < cols.len(),
    ensures
        shortest(cols) <= cols[i].1.len(),
    decreases cols.len(),
{
    if cols.len() > 1 && i < cols.len() - 1 {
        lemma_shortest_le(cols.drop_last(), i);
    }
}

impl BlockAssembler {
    pub closed spec fn types(&self) -> Seq<(Seq<char>, DbTypeV)> {
        types_view(self.column_types@)
    }

    pub closed spec fn data(&self) -> Seq<(Seq<char>, Seq<ValueV>)> {
        data_view(self.columns@)
    }

    pub closed spec fn default_values(&self) -> Seq<(Seq<char>, ValueV)> {
        defaults_view(self.defaults@)
    }

    /// Rows already handed out.
    pub closed spec fn position(&self) -> nat {
        self.pos as nat
    }

    pub open spec fn height(&self) -> nat {
        shortest(self.data())
    }

    pub closed spec fn wf(&self) -> bool {
        &&& self.height == shortest(self.data())
        &&& self.pos <= self.height
    }

    /// An assembler for the given column types, encoded columns and defaults.
    pub fn new(
        column_types: Vec<(String, DbType)>,
        columns: Vec<(String, Vec<Value>)>,
        defaults: Vec<(String, Value)>,
    ) -> (r: BlockAssembler)
        ensures
            r.wf(),
            r.types() == types_view(column_types@),
            r.data() == data_view(columns@),
            r.default_values() == defaults_view(defaults@),
            r.position() == 0,
    {
        let ghost dv = data_view(columns@);
        let mut height: usize = 0;
        let mut i: usize = 0;
        while i < columns.len()
            invariant
                dv == data_view(columns@),
                i <= columns@.len(),
                height == shortest(dv.subrange(0, i as int)),
            decreases columns@.len() - i,
        {
            assert(dv.subrange(0, i + 1).drop_last() =~= dv.subrange(0, i as int));
            let n = columns[i].1.len();
            if i == 0 || n < height {
                height = n;
            }
            i = i + 1;
        }
        assert(dv.subrange(0, columns@.len() as int) =~= dv);
        BlockAssembler { column_types, columns, defaults, height, pos: 0 }
    }

    /// The next block, or `None` once every row has been handed out.
    ///
    /// A block holds the next `min(MAX_BLOCK_ROWS, rows left)` rows of each
    /// column, then, for each default whose column the encoded columns lack,
    /// that value once per row; its types are all the declared ones.
    pub fn next_block(&mut self) -> (r: Option<Block>)
        requires
            old(self).wf(),
        ensures
            final(self).wf(),
            final(self).types() == old(self).types(),
            final(self).data() == old(self).data(),
            final(self).default_values() == old(self).default_values(),
            old(self).position() == old(self).height() ==> r is None && final(self).position()
                == old(self).position(),
            old(self).position() < old(self).height() ==> {
                let rows: nat = if old(self).height() - old(self).position() < MAX_BLOCK_ROWS {
                    (old(self).height() - old(self).position()) as nat
                } else {
                    MAX_BLOCK_ROWS as nat
                };
                let pos = old(self).position() as int;
                &&& r is Some
                &&& r->Some_0.rows == rows
                &&& final(self).position() == pos + rows
                &&& types_view(r->Some_0.column_types@) == old(self).types()
                &&& data_view(r->Some_0.column_data@) == Seq::new(
                    old(self).data().len(),
                    |j: int|
                        (
                            old(self).data()[j].0,
                            old(self).data()[j].1.subrange(pos, pos + rows),
                        ),
                ) + default_columns(
                    old(self).default_values(),
                    data_names(old(self).data()),
                    rows,
                )
            },
    {
        if self.pos == self.height {
            return None;
        }
        let left = self.height - self.pos;
        let rows: usize = if left < MAX_BLOCK_ROWS {
            left
        } else {
            MAX_BLOCK_ROWS
        };
        let ghost dv = data_view(self.columns@);
        let ghost pos = self.pos as int;
        let end = self.pos + rows;
        let mut data: Vec<(String, Vec<Value>)> = Vec::new();
        let mut names: Vec<String> = Vec::new();
        let mut j: usize = 0;
        while j < self.columns.len()
            invariant
                dv == data_view(self.columns@),
                self.height == shortest(dv),
                pos == self.pos,
                end == pos + rows,
                pos + rows <= self.height,
                j <= self.columns@.len(),
                data_view(data@) =~= Seq::new(
                    j as nat,
                    |k: int| (dv[k].0, dv[k].1.subrange(pos, pos + rows)),
                ),
                crate::names::names_view(names@) =~= data_names(dv).subrange(0, j as int),
            decreases self.columns@.len() - j,
        {
            proof {
                lemma_shortest_le(dv, j as int);
                assert(dv[j as int].1 == values_view(self.columns@[j as int].1@));
            }
            let (name, values) = &self.columns[j];
            let ghost vv = values_view(values@);
            let mut slice: Vec<Value> = Vec::new();
            let mut i: usize = self.pos;
            while i < end
                invariant
                    vv == values_view(values@),
                    pos == self.pos,
                    end == pos + rows,
                    pos + rows <= vv.len(),
                    pos <= i <= pos + rows,
                    values_view(slice@) =~= vv.subrange(pos, i as int),
                decreases pos + rows - i,
            {
                let x = values[i].clone();
                proof {
                    lemma_values_view_push(slice@, x);
                }
                slice.push(x);
                i = i + 1;
            }
            let entry = (name.clone(), slice);
            let nm = name.clone();
            proof {
                lemma_data_view_push(data@, entry);
                crate::names::lemma_names_view_push(names@, nm);
            }
            data.push(entry);
            names.push(nm);
            j = j + 1;
        }
        let ghost frame_part = data_view(data@);
        let ghost dfv = defaults_view(self.defaults@);
        let mut d: usize = 0;
        assert(dfv.subrange(0, 0) =~= Seq::<(Seq<char>, ValueV)>::empty());
        while d < self.defaults.len()
            invariant
                dfv == defaults_view(self.defaults@),
                crate::names::names_view(names@) == data_names(dv),
                d <= self.defaults@.len(),
                data_view(data@) =~= frame_part + default_columns(
                    dfv.subrange(0, d as int),
                    data_names(dv),
                    rows as nat,
                ),
            decreases self.defaults@.len() - d,
        {
            assert(dfv.subrange(0, d + 1).drop_last() =~= dfv.subrange(0, d as int));
            let (k, v) = &self.defaults[d];
            if !crate::names::contains_name(&names, k) {
                let mut col: Vec<Value> = Vec::new();
                let mut i: usize = 0;
                while i < rows
                    invariant
                        i <= rows,
                        values_view(col@) =~= Seq::new(i as nat, |r: int| v@),
                    decreases rows - i,
                {
                    let x = v.clone();
                    proof {
                        lemma_values_view_push(col@, x);
                    }
                    col.push(x);
                    i = i + 1;
                }
                let entry = (k.clone(), col);
                proof {
                    lemma_data_view_push(data@, entry);
                }
                data.push(entry);
            }
            d = d + 1;
        }
        assert(dfv.subrange(0, self.defaults@.len() as int) =~= dfv);
        let mut types: Vec<(String, DbType)> = Vec::new();
        let mut t: usize = 0;
        while t < self.column_types.len()
            invariant
                t <= self.column_types@.len(),
                types_view(types@) =~= types_view(self.column_types@).subrange(0, t as int),
            decreases self.column_types@.len() - t,
        {
            let entry = (self.column_types[t].0.clone(), self.column_types[t].1.clone());
            proof {
                lemma_types_view_push(types@, entry);
            }
            types.push(entry);
            t = t + 1;
        }
        self.pos = self.pos + rows;
        let b = Block { rows: rows as u64, column_types: types, column_data: data };
        assert(types_view(b.column_types@) =~= old(self).types());
        assert(data_view(b.column_data@) =~= Seq::new(
            old(self).data().len(),
            |j: int| (old(self).data()[j].0, old(self).data()[j].1.subrange(pos, pos + rows)),
        ) + default_columns(old(self).default_values(), data_names(old(self).data()), rows as nat));
        Some(b)
    }
}

/// Every cell of a column that the defaults add to a block holds the value
/// of a default of that column's name: the same value in every row of every block.
pub proof fn lemma_default_columns_constant(
    defaults: Seq<(Seq<char>, ValueV)>,
    taken: Seq<Seq<char>>,
    rows: nat,
    j: int,
    i: int,
)
    requires
        0 <= j < default_columns(defaults, taken, rows).len(),
        0 <= i < rows,
    ensures
        exists|d: int|
            0 <= d < defaults.len() && defaults[d].0 == default_columns(defaults, taken, rows)[j].0
                && default_columns(defaults, taken, rows)[j].1[i] == defaults[d].1,
    decreases defaults.len(),
{
    let pre = defaults.drop_last();
    let dc = default_columns(defaults, taken, rows);
    let rest = default_columns(pre, taken, rows);
    if j < rest.len() {
        lemma_default_columns_constant(pre, taken, rows, j, i);
        assert(dc[j] == rest[j]);
        let d = choose|d: int| 0 <= d < pre.len() && pre[d].0 == rest[j].0 && rest[j].1[i] == pre[d].1;
        assert(defaults[d] == pre[d]);
    } else {
        let d = defaults.len() - 1;
        assert(defaults[d] == defaults.last());
        assert(dc[j].1[i] == defaults.last().1);
        assert(0 <= d < defaults.len() && defaults[d].0 == dc[j].0 && dc[j].1[i] == defaults[d].1);
    }
}

} // verus!
