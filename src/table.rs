//! Table schemas: creation statements and the insertion of dataframes.

use vstd::prelude::*;

use crate::blocks::{lemma_data_view_push, lemma_types_view_push, types_view, data_view, BlockAssembler, defaults_view};
use crate::codec::{encodable, encode, encode_failure, encoded};
use crate::columns::{columns_view, Column, ColumnV};
use crate::errors::Error;
use crate::names::{contains_name, lemma_names_view_push, missing_names, names_not_in, names_view};
use crate::structs::{fields_view, flat_all, flat_fields, flatten, flatten_schema};
use crate::accumulator::{lemma_table_view_push, position_of, put};
use crate::http::{has_prefix, starts_with};
use crate::types::{
    ch_type_text, clickhouse_type_of, native_of, ChTypeV, ClickhouseType, DbType, DbTypeV, Field,
    FieldV,
};
use crate::values::{values_view, Value};

verus! {

/// A table: its name and its columns' types, in order.
#[derive(Debug)]
pub struct ClickhouseTable {
    pub name: String,
    pub types: Vec<(String, ClickhouseType)>,
}

/// How a table is created.
#[derive(Debug)]
pub struct TableCreationOptions {
    pub primary_keys: Vec<String>,
    /// Text that the creation statement ends with.
    pub suffix: String,
    pub if_not_exists: bool,
}

pub open spec fn table_view(s: Seq<(String, ClickhouseType)>) -> Seq<(Seq<char>, ChTypeV)> {
    Seq::new(s.len(), |i: int| (s[i].0@, s[i].1@))
}

pub open spec fn table_names(s: Seq<(Seq<char>, ChTypeV)>) -> Seq<Seq<char>> {
    Seq::new(s.len(), |i: int| s[i].0)
}

pub open spec fn column_names(s: Seq<ColumnV>) -> Seq<Seq<char>> {
    Seq::new(s.len(), |i: int| s[i].name)
}

/// The type of the first column named `n`.
pub open spec fn lookup(s: Seq<(Seq<char>, ChTypeV)>, n: Seq<char>) -> Option<ChTypeV>
    decreases s.len(),
{
    if s.len() == 0 {
        None
    } else if s[0].0 == n {
        Some(s[0].1)
    } else {
        lookup(s.drop_first(), n)
    }
}

/// The parts joined, with `sep` between each two.
pub open spec fn joined(parts: Seq<Seq<char>>, sep: Seq<char>) -> Seq<char>
    decreases parts.len(),
{
    if parts.len() == 0 {
        Seq::empty()
    } else if parts.len() == 1 {
        parts[0]
    } else {
        joined(parts.drop_last(), sep) + sep + parts.last()
    }
}

/// The line that declares one column in a creation statement.
pub open spec fn column_line(c: (Seq<char>, ChTypeV)) -> Seq<char> {
    "  `"@ + c.0 + "` "@ + ch_type_text(c.1) + ","@
}

pub open spec fn types_text(s: Seq<(Seq<char>, ChTypeV)>) -> Seq<char> {
    joined(Seq::new(s.len(), |i: int| column_line(s[i])), "\n"@)
}

/// The statement that creates a table.
pub open spec fn create_text(
    name: Seq<char>,
    types: Seq<(Seq<char>, ChTypeV)>,
    keys: Seq<Seq<char>>,
    if_not_exists: bool,
) -> Seq<char> {
    "CREATE TABLE "@ + (if if_not_exists {
        "IF NOT EXISTS"@
    } else {
        ""@
    }) + " `"@ + name + "` (\n             "@ + types_text(types)
        + "\n             )\n             ENGINE = MergeTree()\n             PRIMARY KEY("@
        + joined(keys, ", "@) + ")\n             "@
}

fn join_strings(parts: &Vec<String>, sep: &str) -> (r: String)
    ensures
        r@ == joined(names_view(parts@), sep@),
{
    let ghost pv = names_view(parts@);
    let mut out = String::new();
    let mut i: usize = 0;
    assert(pv.subrange(0, 0) =~= Seq::<Seq<char>>::empty());
    while i < parts.len()
        invariant
            pv == names_view(parts@),
            i <= parts@.len(),
            out@ == joined(pv.subrange(0, i as int), sep@),
        decreases parts@.len() - i,
    {
        assert(pv.subrange(0, i + 1).drop_last() =~= pv.subrange(0, i as int));
        if i > 0 {
            out.append(sep);
        }
        out.append(parts[i].as_str());
        i = i + 1;
    }
    assert(pv.subrange(0, parts@.len() as int) =~= pv);
    out
}

impl ClickhouseTable {
    /// The declarations of the table's columns, one per line.
    pub fn types_all(&self) -> (r: String)
        ensures
            r@ == types_text(table_view(self.types@)),
    {
        let ghost tv = table_view(self.types@);
        let mut lines: Vec<String> = Vec::new();
        let mut i: usize = 0;
        while i < self.types.len()
            invariant
                tv == table_view(self.types@),
                i <= self.types@.len(),
                names_view(lines@) =~= Seq::new(i as nat, |k: int| column_line(tv[k])),
            decreases self.types@.len() - i,
        {
            let (n, t) = &self.types[i];
            let line = "  `".to_owned().concat(n.as_str()).concat("` ").concat(t.name().as_str()).concat(",");
            proof {
                lemma_names_view_push(lines@, line);
            }
            lines.push(line);
            i = i + 1;
        }
        assert(names_view(lines@) =~= Seq::new(tv.len(), |k: int| column_line(tv[k])));
        join_strings(&lines, "\n")
    }

    /// The statement that creates the table; each primary key must be one of its columns.
    pub fn create_query(&self, options: &TableCreationOptions) -> (r: Result<String, Error>)
        ensures
            names_not_in(names_view(options.primary_keys@), table_names(table_view(self.types@))).len()
                == 0 ==> r is Ok && r->Ok_0@ == create_text(
                self.name@,
                table_view(self.types@),
                names_view(options.primary_keys@),
                options.if_not_exists,
            ),
            names_not_in(names_view(options.primary_keys@), table_names(table_view(self.types@))).len()
                > 0 ==> (r matches Err(Error::InvalidPrimaryKey(k)) && k@ == names_not_in(
                names_view(options.primary_keys@),
                table_names(table_view(self.types@)),
            )[0]),
    {
        let names = self.column_names();
        let bad = missing_names(&options.primary_keys, &names);
        if bad.len() > 0 {
            assert(names_view(bad@)[0] == bad@[0]@);
            return Err(Error::InvalidPrimaryKey(bad[0].clone()));
        }
        let mut q = "CREATE TABLE ".to_owned();
        if options.if_not_exists {
            q.append("IF NOT EXISTS");
        } else {
            q.append("");
        }
        q.append(" `");
        q.append(self.name.as_str());
        q.append("` (\n             ");
        q.append(self.types_all().as_str());
        q.append("\n             )\n             ENGINE = MergeTree()\n             PRIMARY KEY(");
        q.append(join_strings(&options.primary_keys, ", ").as_str());
        q.append(")\n             ");
        Ok(q)
    }

    /// The statement that creates the table, followed by a line holding the options' suffix.
    pub fn create_statement(&self, options: &TableCreationOptions) -> (r: Result<String, Error>)
        ensures
            names_not_in(names_view(options.primary_keys@), table_names(table_view(self.types@))).len()
                == 0 ==> r is Ok && r->Ok_0@ == create_text(
                self.name@,
                table_view(self.types@),
                names_view(options.primary_keys@),
                options.if_not_exists,
            ) + "\n"@ + options.suffix@,
            names_not_in(names_view(options.primary_keys@), table_names(table_view(self.types@))).len()
                > 0 ==> (r matches Err(Error::InvalidPrimaryKey(k)) && k@ == names_not_in(
                names_view(options.primary_keys@),
                table_names(table_view(self.types@)),
            )[0]),
    {
        let mut q = self.create_query(options)?;
        q.append("\n");
        q.append(options.suffix.as_str());
        Ok(q)
    }

    /// The statement that inserts blocks into the table, in the native format.
    pub fn insert_query(&self) -> (r: String)
        ensures
            r@ == "INSERT INTO `"@ + self.name@ + "` FORMAT native"@,
    {
        let mut q = "INSERT INTO `".to_owned();
        q.append(self.name.as_str());
        q.append("` FORMAT native");
        q
    }

    /// The names of the table's columns, in order.
    pub fn column_names(&self) -> (r: Vec<String>)
        ensures
            names_view(r@) == table_names(table_view(self.types@)),
    {
        let mut out: Vec<String> = Vec::new();
        let mut i: usize = 0;
        while i < self.types.len()
            invariant
                i <= self.types@.len(),
                names_view(out@) =~= table_names(table_view(self.types@)).subrange(0, i as int),
            decreases self.types@.len() - i,
        {
            let n = self.types[i].0.clone();
            proof {
                lemma_names_view_push(out@, n);
            }
            out.push(n);
            i = i + 1;
        }
        out
    }

    /// The type of the first column named `n`.
    pub fn type_of(&self, n: &String) -> (r: Option<ClickhouseType>)
        ensures
            match lookup(table_view(self.types@), n@) {
                Some(t) => r is Some && r->Some_0@ == t,
                None => r is None,
            },
    {
        let ghost tv = table_view(self.types@);
        let mut i: usize = 0;
        assert(tv.subrange(0, tv.len() as int) =~= tv);
        while i < self.types.len()
            invariant
                tv == table_view(self.types@),
                i <= self.types@.len(),
                lookup(tv, n@) == lookup(tv.subrange(i as int, tv.len() as int), n@),
            decreases self.types@.len() - i,
        {
            assert(tv.subrange(i as int, tv.len() as int).drop_first() =~= tv.subrange(
                i + 1,
                tv.len() as int,
            ));
            if self.types[i].0 == *n {
                return Some(self.types[i].1.clone());
            }
            i = i + 1;
        }
        None
    }
}


/// Column `k` is the first of the flat columns that does not encode with the table's type for it.
pub open spec fn first_unencodable(flat: Seq<ColumnV>, tv: Seq<(Seq<char>, ChTypeV)>, k: int) -> bool {
    &&& 0 <= k < flat.len()
    &&& !encodable(flat[k].data, lookup(tv, flat[k].name)->Some_0)
    &&& forall|j: int|
        0 <= j < k ==> encodable((#[trigger] flat[j]).data, lookup(tv, flat[j].name)->Some_0)
}

pub open spec fn default_keys(s: Seq<(String, Value)>) -> Seq<Seq<char>> {
    Seq::new(s.len(), |i: int| s[i].0@)
}

/// The table columns that neither the dataframe nor the defaults give.
pub open spec fn missing_columns(
    table: Seq<Seq<char>>,
    frame: Seq<Seq<char>>,
    defaults: Seq<Seq<char>>,
) -> Seq<Seq<char>> {
    names_not_in(table, frame + defaults)
}

/// Whether the dataframe's columns and the defaults give exactly the table's columns.
pub open spec fn columns_agree(
    table: Seq<Seq<char>>,
    frame: Seq<Seq<char>>,
    defaults: Seq<Seq<char>>,
) -> bool {
    &&& names_not_in(frame, table).len() == 0
    &&& names_not_in(table, frame + defaults).len() == 0
    &&& names_not_in(defaults, table).len() == 0
}

pub proof fn lemma_names_not_in_empty(names: Seq<Seq<char>>, other: Seq<Seq<char>>)
    ensures
        names_not_in(names, other).len() == 0 <==> forall|i: int|
            0 <= i < names.len() ==> other.contains(#[trigger] names[i]),
    decreases names.len(),
{
    if names.len() > 0 {
        lemma_names_not_in_empty(names.drop_last(), other);
        if names_not_in(names, other).len() == 0 {
            assert forall|i: int| 0 <= i < names.len() implies other.contains(#[trigger] names[i]) by {
                if i < names.len() - 1 {
                    assert(names[i] == names.drop_last()[i]);
                }
            }
        }
        if forall|i: int| 0 <= i < names.len() ==> other.contains(#[trigger] names[i]) {
            assert forall|i: int| 0 <= i < names.drop_last().len() implies other.contains(
                #[trigger] names.drop_last()[i],
            ) by {
                assert(names.drop_last()[i] == names[i]);
            }
            assert(other.contains(names[names.len() - 1]));
        }
    }
}

impl ClickhouseTable {
    /// Prepares a dataframe for insertion: flattens its struct columns, checks
    /// its columns against the table's, and encodes each column with the
    /// table's type for it. `defaults` gives a constant value for each table
    /// column that the dataframe lacks.
    ///
    /// A dataframe column that the table lacks gives `MismatchingColumns` with
    /// those columns; then a table column that neither the dataframe nor the
    /// defaults give, or a default that the table lacks, gives
    /// `MismatchingColumns` with the table columns that are missing.
    pub fn blocks_from_df(&self, df: &Vec<Column>, defaults: Vec<(String, Value)>) -> (r: Result<
        BlockAssembler,
        Error,
    >)
        ensures
            ({
                let flat = flat_all(columns_view(df@));
                let tv = table_view(self.types@);
                let fnames = column_names(flat);
                let dkeys = default_keys(defaults@);
                &&& names_not_in(fnames, table_names(tv)).len() > 0 ==> (r matches Err(
                    Error::MismatchingColumns(x),
                ) && names_view(x@) == names_not_in(fnames, table_names(tv)))
                &&& names_not_in(fnames, table_names(tv)).len() == 0 && !columns_agree(
                    table_names(tv),
                    fnames,
                    dkeys,
                ) ==> (r matches Err(Error::MismatchingColumns(x)) && names_view(x@)
                    == missing_columns(table_names(tv), fnames, dkeys))
                &&& columns_agree(table_names(tv), fnames, dkeys) ==> {
                    &&& (r is Ok <==> forall|j: int|
                        0 <= j < flat.len() ==> encodable(
                            (#[trigger] flat[j]).data,
                            lookup(tv, flat[j].name)->Some_0,
                        ))
                    &&& r is Err ==> exists|k: int|
                        first_unencodable(flat, tv, k) && encode_failure(
                            r->Err_0,
                            flat[k].data,
                            lookup(tv, flat[k].name)->Some_0,
                        )
                    &&& r is Ok ==> {
                        let a = r->Ok_0;
                        &&& a.wf()
                        &&& a.position() == 0
                        &&& a.types() == Seq::new(
                            tv.len(),
                            |i: int| (tv[i].0, native_of(tv[i].1)),
                        )
                        &&& a.data() == Seq::new(
                            flat.len(),
                            |j: int|
                                (
                                    flat[j].name,
                                    encoded(flat[j].data, lookup(tv, flat[j].name)->Some_0),
                                ),
                        )
                        &&& a.default_values() == defaults_view(defaults@)
                    }
                }
            }),
    {
        let ghost tv = table_view(self.types@);
        let flat = flatten(df);
        let ghost fv = columns_view(flat@);
        let table_names_v = self.column_names();
        let mut frame_names: Vec<String> = Vec::new();
        let mut i: usize = 0;
        while i < flat.len()
            invariant
                fv == columns_view(flat@),
                i <= flat@.len(),
                names_view(frame_names@) =~= column_names(fv).subrange(0, i as int),
            decreases flat@.len() - i,
        {
            assert(fv[i as int] == flat@[i as int]@);
            let n = flat[i].name.clone();
            proof {
                lemma_names_view_push(frame_names@, n);
            }
            frame_names.push(n);
            i = i + 1;
        }
        assert(names_view(frame_names@) =~= column_names(fv));
        let extra = missing_names(&frame_names, &table_names_v);
        if extra.len() > 0 {
            return Err(Error::MismatchingColumns(extra));
        }
        let mut keys: Vec<String> = Vec::new();
        let mut given: Vec<String> = Vec::new();
        let mut i: usize = 0;
        while i < frame_names.len()
            invariant
                i <= frame_names@.len(),
                names_view(given@) =~= names_view(frame_names@).subrange(0, i as int),
            decreases frame_names@.len() - i,
        {
            let n = frame_names[i].clone();
            proof {
                lemma_names_view_push(given@, n);
            }
            given.push(n);
            i = i + 1;
        }
        let mut i: usize = 0;
        while i < defaults.len()
            invariant
                i <= defaults@.len(),
                names_view(keys@) =~= default_keys(defaults@).subrange(0, i as int),
                names_view(given@) =~= names_view(frame_names@) + default_keys(defaults@).subrange(
                    0,
                    i as int,
                ),
            decreases defaults@.len() - i,
        {
            let k = defaults[i].0.clone();
            let k2 = defaults[i].0.clone();
            proof {
                lemma_names_view_push(keys@, k);
                lemma_names_view_push(given@, k2);
            }
            keys.push(k);
            given.push(k2);
            i = i + 1;
        }
        assert(names_view(keys@) =~= default_keys(defaults@));
        assert(names_view(given@) =~= names_view(frame_names@) + default_keys(defaults@));
        let missing = missing_names(&table_names_v, &given);
        let unknown = missing_names(&keys, &table_names_v);
        if missing.len() > 0 || unknown.len() > 0 {
            return Err(Error::MismatchingColumns(missing));
        }
        assert(columns_agree(table_names(tv), column_names(fv), default_keys(defaults@)));
        let mut column_types: Vec<(String, DbType)> = Vec::new();
        let mut i: usize = 0;
        while i < self.types.len()
            invariant
                tv == table_view(self.types@),
                i <= self.types@.len(),
                types_view(column_types@) =~= Seq::new(
                    i as nat,
                    |k: int| (tv[k].0, native_of(tv[k].1)),
                ),
            decreases self.types@.len() - i,
        {
            let entry = (self.types[i].0.clone(), self.types[i].1.native());
            proof {
                lemma_types_view_push(column_types@, entry);
            }
            column_types.push(entry);
            i = i + 1;
        }
        let mut columns: Vec<(String, Vec<Value>)> = Vec::new();
        let mut j: usize = 0;
        while j < flat.len()
            invariant
                fv == columns_view(flat@),
                fv == flat_all(columns_view(df@)),
                tv == table_view(self.types@),
                names_not_in(column_names(fv), table_names(tv)).len() == 0,
                columns_agree(table_names(tv), column_names(fv), default_keys(defaults@)),
                j <= flat@.len(),
                forall|k: int|
                    0 <= k < j ==> encodable(
                        (#[trigger] fv[k]).data,
                        lookup(tv, fv[k].name)->Some_0,
                    ),
                data_view(columns@) =~= Seq::new(
                    j as nat,
                    |k: int| (fv[k].name, encoded(fv[k].data, lookup(tv, fv[k].name)->Some_0)),
                ),
            decreases flat@.len() - j,
        {
            assert(fv[j as int] == flat@[j as int]@);
            proof {
                lemma_names_not_in_empty(column_names(fv), table_names(tv));
                assert(column_names(fv)[j as int] == fv[j as int].name);
                lemma_lookup_found(tv, fv[j as int].name);
            }
            let t = match self.type_of(&flat[j].name) {
                Some(t) => t,
                None => {
                    return Err(Error::MissingColumnLocal(flat[j].name.clone()));
                },
            };
            let values = match encode(&flat[j].data, &t) {
                Ok(v) => v,
                Err(e) => {
                    assert(!encodable(fv[j as int].data, lookup(tv, fv[j as int].name)->Some_0));
                    assert(first_unencodable(fv, tv, j as int));
                    return Err(e);
                },
            };
            let entry = (flat[j].name.clone(), values);
            proof {
                lemma_data_view_push(columns@, entry);
            }
            columns.push(entry);
            j = j + 1;
        }
        Ok(BlockAssembler::new(column_types, columns, defaults))
    }
}

/// A name that the table holds has a type.
pub proof fn lemma_lookup_found(s: Seq<(Seq<char>, ChTypeV)>, n: Seq<char>)
    requires
        table_names(s).contains(n),
    ensures
        lookup(s, n) is Some,
    decreases s.len(),
{
    if s.len() > 0 && s[0].0 != n {
        let k = choose|k: int| 0 <= k < table_names(s).len() && table_names(s)[k] == n;
        assert(table_names(s.drop_first())[k - 1] == n);
        lemma_lookup_found(s.drop_first(), n);
    }
}


/// Whether column `name` is to be nullable: it is one of `nullables`, or a
/// field, at any depth, of a struct that is.
pub open spec fn wants_null(nullables: Seq<Seq<char>>, name: Seq<char>) -> bool {
    nullables.contains(name) || exists|i: int|
        0 <= i < nullables.len() && has_prefix(name, #[trigger] nullables[i] + seq!['.'])
}

pub open spec fn with_null(nullables: Seq<Seq<char>>, e: (Seq<char>, ChTypeV)) -> (Seq<char>, ChTypeV) {
    if wants_null(nullables, e.0) {
        (e.0, ChTypeV::Nullable(Box::new(e.1)))
    } else {
        e
    }
}

/// The types of a flat schema's fields, each made nullable where asked.
pub open spec fn schema_entries(flat: Seq<FieldV>, nullables: Seq<Seq<char>>) -> Seq<(Seq<char>, ChTypeV)> {
    Seq::new(
        flat.len(),
        |i: int| with_null(nullables, (flat[i].name, clickhouse_type_of(flat[i].dtype)->Ok_0)),
    )
}

/// The given types, each made nullable where asked.
pub open spec fn default_entries(
    defaults: Seq<(Seq<char>, ChTypeV)>,
    nullables: Seq<Seq<char>>,
) -> Seq<(Seq<char>, ChTypeV)> {
    Seq::new(defaults.len(), |i: int| with_null(nullables, defaults[i]))
}

/// The types in order, a later type of a name replacing the earlier one in place.
pub open spec fn collected(entries: Seq<(Seq<char>, ChTypeV)>) -> Seq<(Seq<char>, ChTypeV)>
    decreases entries.len(),
{
    if entries.len() == 0 {
        Seq::empty()
    } else {
        put(collected(entries.drop_last()), entries.last().0, entries.last().1)
    }
}

fn is_nullable_column(nullables: &Vec<String>, name: &String) -> (r: bool)
    ensures
        r == wants_null(names_view(nullables@), name@),
{
    let ghost nv = names_view(nullables@);
    if contains_name(nullables, name) {
        return true;
    }
    proof {
        reveal_strlit(".");
    }
    let mut i: usize = 0;
    while i < nullables.len()
        invariant
            nv == names_view(nullables@),
            "."@ == seq!['.'],
            i <= nullables@.len(),
            forall|j: int| 0 <= j < i ==> !has_prefix(name@, #[trigger] nv[j] + seq!['.']),
        decreases nullables@.len() - i,
    {
        let p = nullables[i].clone().concat(".");
        assert(p@ == nv[i as int] + seq!['.']);
        if starts_with(name.as_str(), p.as_str()) {
            return true;
        }
        i = i + 1;
    }
    false
}

impl ClickhouseTable {
    /// A table whose columns are those of a dataframe schema, flattened, then
    /// those of `defaults`; a column named in `nullables`, or a field of a
    /// struct named there, is made nullable. A later column of a name replaces
    /// the type of the earlier one in place. A field whose type has no
    /// database type gives `UnsupportedPolarsType`.
    pub fn from_polars_schema(
        name: &str,
        schema: &Vec<Field>,
        defaults: Vec<(String, ClickhouseType)>,
        nullables: &Vec<String>,
    ) -> (r: Result<ClickhouseTable, Error>)
        ensures
            ({
                let flat = flat_fields(fields_view(schema@));
                let nv = names_view(nullables@);
                &&& (r is Ok <==> forall|i: int|
                    0 <= i < flat.len() ==> clickhouse_type_of((#[trigger] flat[i]).dtype) is Ok)
                &&& r is Err ==> exists|i: int|
                    0 <= i < flat.len() && clickhouse_type_of(flat[i].dtype) is Err && (forall|j: int|
                        0 <= j < i ==> clickhouse_type_of((#[trigger] flat[j]).dtype) is Ok) && (r matches Err(
                        Error::UnsupportedPolarsType(x),
                    ) && x@ == clickhouse_type_of(flat[i].dtype)->Err_0)
                &&& r is Ok ==> r->Ok_0.name@ == name@ && table_view(r->Ok_0.types@) == collected(
                    schema_entries(flat, nv) + default_entries(table_view(defaults@), nv),
                )
            }),
    {
        let flat = flatten_schema(schema);
        let ghost fv = fields_view(flat@);
        let ghost nv = names_view(nullables@);
        let ghost dv = table_view(defaults@);
        let ghost all = schema_entries(fv, nv) + default_entries(dv, nv);
        let mut types: Vec<(String, ClickhouseType)> = Vec::new();
        let mut i: usize = 0;
        assert(all.subrange(0, 0) =~= Seq::<(Seq<char>, ChTypeV)>::empty());
        while i < flat.len()
            invariant
                fv == fields_view(flat@),
                fv == flat_fields(fields_view(schema@)),
                nv == names_view(nullables@),
                all == schema_entries(fv, nv) + default_entries(dv, nv),
                i <= fv.len(),
                forall|k: int| 0 <= k < i ==> clickhouse_type_of((#[trigger] fv[k]).dtype) is Ok,
                table_view(types@) == collected(all.subrange(0, i as int)),
            decreases fv.len() - i,
        {
            assert(fv[i as int] == flat@[i as int]@);
            let t = match ClickhouseType::from_column_type(&flat[i].dtype) {
                Ok(t) => t,
                Err(e) => {
                    return Err(e);
                },
            };
            let null = is_nullable_column(nullables, &flat[i].name);
            let t = if null {
                t.nullable()
            } else {
                t
            };
            assert(all[i as int] == (fv[i as int].name, t@));
            assert(all.subrange(0, i + 1).drop_last() =~= all.subrange(0, i as int));
            put_type(&mut types, flat[i].name.clone(), t);
            i = i + 1;
        }
        let n = flat.len();
        let mut d: usize = 0;
        while d < defaults.len()
            invariant
                nv == names_view(nullables@),
                dv == table_view(defaults@),
                all == schema_entries(fv, nv) + default_entries(dv, nv),
                n == fv.len(),
                d <= dv.len(),
                table_view(types@) == collected(all.subrange(0, n + d)),
            decreases dv.len() - d,
        {
            let (k, t) = &defaults[d];
            let null = is_nullable_column(nullables, k);
            let t = if null {
                t.clone().nullable()
            } else {
                t.clone()
            };
            assert(all[n + d] == (k@, t@));
            assert(all.subrange(0, n + d + 1).drop_last() =~= all.subrange(0, n + d));
            put_type(&mut types, k.clone(), t);
            d = d + 1;
        }
        assert(all.subrange(0, n + dv.len()) =~= all);
        Ok(ClickhouseTable { name: name.to_owned(), types })
    }
}

fn same_text(a: &str, b: &str) -> (r: bool)
    ensures
        r == (a@ == b@),
{
    let r = a.unicode_len() == b.unicode_len() && starts_with(a, b);
    proof {
        if a@.len() == b@.len() && has_prefix(a@, b@) {
            assert(a@ =~= a@.subrange(0, b@.len() as int));
        }
        if a@ == b@ {
            assert(a@.subrange(0, b@.len() as int) =~= b@);
        }
    }
    r
}

impl ClickhouseType {
    /// The type of a column as the server describes it: `Bool` is a boolean
    /// and `Nullable(Boolean)` a nullable one; any other description is the
    /// database type `parsed` that was read from it, and one that could not
    /// be read gives `UnparsableType`.
    pub fn from_description(s: &str, parsed: Option<DbType>) -> (r: Result<ClickhouseType, Error>)
        ensures
            s@ == "Bool"@ ==> r is Ok && r->Ok_0@ == ChTypeV::Bool,
            s@ == "Nullable(Boolean)"@ ==> r is Ok && r->Ok_0@ == ChTypeV::Nullable(
                Box::new(ChTypeV::Bool),
            ),
            s@ != "Bool"@ && s@ != "Nullable(Boolean)"@ ==> match parsed {
                Some(t) => r is Ok && r->Ok_0@ == ChTypeV::Native(t@),
                None => r matches Err(Error::UnparsableType(x)) && x@ == s@,
            },
    {
        proof {
            reveal_strlit("Bool");
            reveal_strlit("Nullable(Boolean)");
            assert("Nullable(Boolean)"@.len() != "Bool"@.len());
            assert(crate::types::ch_type_view(ClickhouseType::Bool) == ChTypeV::Bool);
        }
        if same_text(s, "Bool") {
            Ok(ClickhouseType::Bool)
        } else if same_text(s, "Nullable(Boolean)") {
            Ok(ClickhouseType::Nullable(Box::new(ClickhouseType::Bool)))
        } else {
            match parsed {
                Some(t) => Ok(ClickhouseType::Native(t)),
                None => Err(Error::UnparsableType(s.to_owned())),
            }
        }
    }
}

/// Gives column `k` type `t`: in place if the table has the column, else last.
fn put_type(types: &mut Vec<(String, ClickhouseType)>, k: String, t: ClickhouseType)
    ensures
        table_view(final(types)@) == put(table_view(old(types)@), k@, t@),
{
    let ghost before = table_view(types@);
    match position_of(types, &k) {
        Some(j) => {
            let ghost (kv, tv) = (k@, t@);
            let _old = types.remove(j);
            types.insert(j, (k, t));
            assert(table_view(types@) =~= before.update(j as int, (kv, tv)));
        },
        None => {
            let entry = (k, t);
            proof {
                lemma_table_view_push(types@, entry);
            }
            types.push(entry);
        },
    }
}

} // verus!
