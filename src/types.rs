//! Database types, column types and the mapping between them.

use vstd::prelude::*;

use crate::errors::Error;

verus! {

/// The numeric kinds shared by the database and the dataframe.
#[derive(PartialEq, Eq, Structural, Clone, Copy, Debug)]
pub enum NumKind {
    Int8,
    Int16,
    Int32,
    Int64,
    UInt8,
    UInt16,
    UInt32,
    UInt64,
    Float32,
    Float64,
}

/// A type as the database declares it on the wire.
#[derive(Debug, PartialEq, Eq)]
pub enum DbType {
    Num(NumKind),
    String,
    Uuid,
    LowCardinality(Box<DbType>),
    Array(Box<DbType>),
    Nullable(Box<DbType>),
    /// Any other database type, held by its name.
    Other(String),
}

/// Mathematical model of a [`DbType`].
pub enum DbTypeV {
    Num(NumKind),
    String,
    Uuid,
    LowCardinality(Box<DbTypeV>),
    Array(Box<DbTypeV>),
    Nullable(Box<DbTypeV>),
    Other(Seq<char>),
}

pub open spec fn db_type_view(t: DbType) -> DbTypeV
    decreases t,
{
    match t {
        DbType::Num(k) => DbTypeV::Num(k),
        DbType::String => DbTypeV::String,
        DbType::Uuid => DbTypeV::Uuid,
        DbType::LowCardinality(b) => DbTypeV::LowCardinality(Box::new(db_type_view(*b))),
        DbType::Array(b) => DbTypeV::Array(Box::new(db_type_view(*b))),
        DbType::Nullable(b) => DbTypeV::Nullable(Box::new(db_type_view(*b))),
        DbType::Other(s) => DbTypeV::Other(s@),
    }
}

impl View for DbType {
    type V = DbTypeV;

    open spec fn view(&self) -> DbTypeV {
        db_type_view(*self)
    }
}

pub open spec fn num_kind_text(k: NumKind) -> Seq<char> {
    match k {
        NumKind::Int8 => "Int8"@,
        NumKind::Int16 => "Int16"@,
        NumKind::Int32 => "Int32"@,
        NumKind::Int64 => "Int64"@,
        NumKind::UInt8 => "UInt8"@,
        NumKind::UInt16 => "UInt16"@,
        NumKind::UInt32 => "UInt32"@,
        NumKind::UInt64 => "UInt64"@,
        NumKind::Float32 => "Float32"@,
        NumKind::Float64 => "Float64"@,
    }
}

/// The name under which the database knows a type.
pub open spec fn db_type_text(t: DbTypeV) -> Seq<char>
    decreases t,
{
    match t {
        DbTypeV::Num(k) => num_kind_text(k),
        DbTypeV::String => "String"@,
        DbTypeV::Uuid => "UUID"@,
        DbTypeV::LowCardinality(b) => "LowCardinality("@ + db_type_text(*b) + ")"@,
        DbTypeV::Array(b) => "Array("@ + db_type_text(*b) + ")"@,
        DbTypeV::Nullable(b) => "Nullable("@ + db_type_text(*b) + ")"@,
        DbTypeV::Other(s) => s,
    }
}

/// The type with an outer `Nullable` removed.
pub open spec fn strip_null(t: DbTypeV) -> DbTypeV {
    match t {
        DbTypeV::Nullable(b) => *b,
        _ => t,
    }
}

/// The type with an outer `LowCardinality` removed.
pub open spec fn strip_low_cardinality(t: DbTypeV) -> DbTypeV {
    match t {
        DbTypeV::LowCardinality(b) => *b,
        _ => t,
    }
}

impl NumKind {
    pub fn name(&self) -> (r: String)
        ensures
            r@ == num_kind_text(*self),
    {
        match self {
            NumKind::Int8 => "Int8".to_owned(),
            NumKind::Int16 => "Int16".to_owned(),
            NumKind::Int32 => "Int32".to_owned(),
            NumKind::Int64 => "Int64".to_owned(),
            NumKind::UInt8 => "UInt8".to_owned(),
            NumKind::UInt16 => "UInt16".to_owned(),
            NumKind::UInt32 => "UInt32".to_owned(),
            NumKind::UInt64 => "UInt64".to_owned(),
            NumKind::Float32 => "Float32".to_owned(),
            NumKind::Float64 => "Float64".to_owned(),
        }
    }
}

impl Clone for DbType {
    fn clone(&self) -> (r: DbType)
        ensures
            r@ == self@,
        decreases self,
    {
        match self {
            DbType::Num(k) => DbType::Num(*k),
            DbType::String => DbType::String,
            DbType::Uuid => DbType::Uuid,
            DbType::LowCardinality(b) => DbType::LowCardinality(Box::new((**b).clone())),
            DbType::Array(b) => DbType::Array(Box::new((**b).clone())),
            DbType::Nullable(b) => DbType::Nullable(Box::new((**b).clone())),
            DbType::Other(s) => DbType::Other(s.clone()),
        }
    }
}

impl DbType {
    /// Whether two types are the same.
    pub fn same(&self, o: &DbType) -> (r: bool)
        ensures
            r == (self@ == o@),
        decreases self,
    {
        match (self, o) {
            (DbType::Num(a), DbType::Num(b)) => *a == *b,
            (DbType::String, DbType::String) => true,
            (DbType::Uuid, DbType::Uuid) => true,
            (DbType::LowCardinality(a), DbType::LowCardinality(b)) => (**a).same(&**b),
            (DbType::Array(a), DbType::Array(b)) => (**a).same(&**b),
            (DbType::Nullable(a), DbType::Nullable(b)) => (**a).same(&**b),
            (DbType::Other(a), DbType::Other(b)) => *a == *b,
            _ => false,
        }
    }

    /// The name of the type, as the database writes it.
    pub fn name(&self) -> (r: String)
        ensures
            r@ == db_type_text(self@),
        decreases self,
    {
        match self {
            DbType::Num(k) => k.name(),
            DbType::String => "String".to_owned(),
            DbType::Uuid => "UUID".to_owned(),
            DbType::LowCardinality(b) => "LowCardinality(".to_owned().concat((**b).name().as_str()).concat(")"),
            DbType::Array(b) => "Array(".to_owned().concat((**b).name().as_str()).concat(")"),
            DbType::Nullable(b) => "Nullable(".to_owned().concat((**b).name().as_str()).concat(")"),
            DbType::Other(s) => s.clone(),
        }
    }
}


/// A type of the database, with the distinctions that the wire drops:
/// booleans travel as `UInt8` and JSON text as `String`.
#[derive(Debug, PartialEq, Eq)]
pub enum ClickhouseType {
    Native(DbType),
    Bool,
    Json,
    Nullable(Box<ClickhouseType>),
}

/// Mathematical model of a [`ClickhouseType`].
pub enum ChTypeV {
    Native(DbTypeV),
    Bool,
    Json,
    Nullable(Box<ChTypeV>),
}

pub open spec fn ch_type_view(t: ClickhouseType) -> ChTypeV
    decreases t,
{
    match t {
        ClickhouseType::Native(n) => ChTypeV::Native(n@),
        ClickhouseType::Bool => ChTypeV::Bool,
        ClickhouseType::Json => ChTypeV::Json,
        ClickhouseType::Nullable(b) => ChTypeV::Nullable(Box::new(ch_type_view(*b))),
    }
}

impl View for ClickhouseType {
    type V = ChTypeV;

    open spec fn view(&self) -> ChTypeV {
        ch_type_view(*self)
    }
}

/// A column type of the dataframe.
#[derive(Debug, PartialEq, Eq)]
pub enum ColumnType {
    Num(NumKind),
    Boolean,
    String,
    Categorical,
    List(Box<ColumnType>),
    Struct(Vec<Field>),
    /// Any other column type, held by its name.
    Other(String),
}

/// A named column type, as a struct column holds its fields.
#[derive(Debug, PartialEq, Eq)]
pub struct Field {
    pub name: String,
    pub dtype: ColumnType,
}

/// Mathematical model of a [`ColumnType`].
pub enum ColTypeV {
    Num(NumKind),
    Boolean,
    String,
    Categorical,
    List(Box<ColTypeV>),
    Struct(Seq<FieldV>),
    Other(Seq<char>),
}

/// Mathematical model of a [`Field`].
pub struct FieldV {
    pub name: Seq<char>,
    pub dtype: ColTypeV,
}

pub open spec fn col_type_view(t: ColumnType) -> ColTypeV
    decreases t,
{
    match t {
        ColumnType::Num(k) => ColTypeV::Num(k),
        ColumnType::Boolean => ColTypeV::Boolean,
        ColumnType::String => ColTypeV::String,
        ColumnType::Categorical => ColTypeV::Categorical,
        ColumnType::List(b) => ColTypeV::List(Box::new(col_type_view(*b))),
        ColumnType::Struct(fs) => {
            proof {
                assert forall|i: int| 0 <= i < fs@.len() implies decreases_to!(t => fs@[i].dtype) by {
                    assert(decreases_to!(t => fs));
                    assert(decreases_to!(fs => fs@));
                    assert(decreases_to!(fs@ => fs@[i]));
                    assert(decreases_to!(fs@[i] => fs@[i].dtype));
                }
            }
            ColTypeV::Struct(
                Seq::new(
                    fs@.len(),
                    |i: int|
                        FieldV {
                            name: fs@[i].name@,
                            dtype: if 0 <= i < fs@.len() {
                                col_type_view(fs@[i].dtype)
                            } else {
                                ColTypeV::Boolean
                            },
                        },
                ),
            )
        },
        ColumnType::Other(s) => ColTypeV::Other(s@),
    }
}

impl View for ColumnType {
    type V = ColTypeV;

    open spec fn view(&self) -> ColTypeV {
        col_type_view(*self)
    }
}

impl View for Field {
    type V = FieldV;

    open spec fn view(&self) -> FieldV {
        FieldV { name: self.name@, dtype: self.dtype@ }
    }
}

/// What the database receives for a type: booleans as `UInt8`, JSON as `String`.
pub open spec fn native_of(t: ChTypeV) -> DbTypeV
    decreases t,
{
    match t {
        ChTypeV::Native(n) => n,
        ChTypeV::Bool => DbTypeV::Num(NumKind::UInt8),
        ChTypeV::Json => DbTypeV::String,
        ChTypeV::Nullable(b) => DbTypeV::Nullable(Box::new(native_of(*b))),
    }
}

/// The column type that holds values of a database type, or the innermost type that has none.
pub open spec fn db_column_type(n: DbTypeV) -> Result<ColTypeV, DbTypeV>
    decreases n,
{
    match n {
        DbTypeV::Num(k) => Ok(ColTypeV::Num(k)),
        DbTypeV::String => Ok(ColTypeV::String),
        DbTypeV::Uuid => Ok(ColTypeV::String),
        DbTypeV::Array(b) => match db_column_type(*b) {
            Ok(c) => Ok(ColTypeV::List(Box::new(c))),
            Err(e) => Err(e),
        },
        DbTypeV::LowCardinality(b) => if *b == DbTypeV::String {
            Ok(ColTypeV::Categorical)
        } else {
            Err(n)
        },
        DbTypeV::Nullable(b) => db_column_type(*b),
        DbTypeV::Other(_) => Err(n),
    }
}

/// The column type that holds values of a type, or the innermost type that has none.
pub open spec fn column_type_of(t: ChTypeV) -> Result<ColTypeV, ChTypeV>
    decreases t,
{
    match t {
        ChTypeV::Native(n) => match db_column_type(n) {
            Ok(c) => Ok(c),
            Err(e) => Err(ChTypeV::Native(e)),
        },
        ChTypeV::Bool => Ok(ColTypeV::Boolean),
        ChTypeV::Json => Err(t),
        ChTypeV::Nullable(b) => column_type_of(*b),
    }
}

/// The database type that stores a column type, or the innermost column type that has none.
pub open spec fn clickhouse_type_of(c: ColTypeV) -> Result<ChTypeV, ColTypeV>
    decreases c,
{
    match c {
        ColTypeV::Num(k) => Ok(ChTypeV::Native(DbTypeV::Num(k))),
        ColTypeV::String => Ok(ChTypeV::Native(DbTypeV::String)),
        ColTypeV::Boolean => Ok(ChTypeV::Bool),
        ColTypeV::Categorical => Ok(
            ChTypeV::Native(DbTypeV::LowCardinality(Box::new(DbTypeV::String))),
        ),
        ColTypeV::List(b) => match clickhouse_type_of(*b) {
            Ok(t) => Ok(ChTypeV::Native(DbTypeV::Array(Box::new(native_of(t))))),
            Err(e) => Err(e),
        },
        _ => Err(c),
    }
}

/// The name of a type, as the database writes it.
pub open spec fn ch_type_text(t: ChTypeV) -> Seq<char>
    decreases t,
{
    match t {
        ChTypeV::Native(n) => db_type_text(n),
        ChTypeV::Bool => "Bool"@,
        ChTypeV::Json => "String"@,
        ChTypeV::Nullable(b) => "Nullable("@ + ch_type_text(*b) + ")"@,
    }
}


impl Clone for ClickhouseType {
    fn clone(&self) -> (r: ClickhouseType)
        ensures
            r@ == self@,
        decreases self,
    {
        match self {
            ClickhouseType::Native(n) => ClickhouseType::Native(n.clone()),
            ClickhouseType::Bool => ClickhouseType::Bool,
            ClickhouseType::Json => ClickhouseType::Json,
            ClickhouseType::Nullable(b) => ClickhouseType::Nullable(Box::new((**b).clone())),
        }
    }
}

impl Clone for ColumnType {
    fn clone(&self) -> (r: ColumnType)
        ensures
            r@ == self@,
        decreases self,
    {
        match self {
            ColumnType::Num(k) => ColumnType::Num(*k),
            ColumnType::Boolean => ColumnType::Boolean,
            ColumnType::String => ColumnType::String,
            ColumnType::Categorical => ColumnType::Categorical,
            ColumnType::List(b) => ColumnType::List(Box::new((**b).clone())),
            ColumnType::Struct(fs) => {
                let mut out: Vec<Field> = Vec::new();
                let mut i: usize = 0;
                while i < fs.len()
                    invariant
                        *self == ColumnType::Struct(*fs),
                        i <= fs@.len(),
                        out@.len() == i,
                        forall|j: int| 0 <= j < i ==> #[trigger] out@[j]@ == fs@[j]@,
                    decreases fs@.len() - i,
                {
                    proof {
                        assert(*self == ColumnType::Struct(*fs));
                        assert(decreases_to!(*self => (*self)->Struct_0));
                        assert(decreases_to!(*fs => fs@));
                        assert(decreases_to!(fs@ => fs@[i as int]));
                        assert(decreases_to!(fs@[i as int] => fs@[i as int].dtype));
                    }
                    let f = &fs[i];
                    out.push(Field { name: f.name.clone(), dtype: f.dtype.clone() });
                    i = i + 1;
                }
                let r = ColumnType::Struct(out);
                proof {
                    let a = col_type_view(r)->Struct_0;
                    let b = col_type_view(*self)->Struct_0;
                    assert forall|j: int| 0 <= j < a.len() implies a[j] == b[j] by {
                        assert(out@[j]@ == fs@[j]@);
                    }
                    assert(a =~= b);
                }
                r
            },
            ColumnType::Other(s) => ColumnType::Other(s.clone()),
        }
    }
}

impl Clone for Field {
    fn clone(&self) -> (r: Field)
        ensures
            r@ == self@,
    {
        Field { name: self.name.clone(), dtype: self.dtype.clone() }
    }
}

impl ClickhouseType {
    /// The same type, made nullable.
    pub fn nullable(self) -> (r: ClickhouseType)
        ensures
            r@ == ChTypeV::Nullable(Box::new(self@)),
    {
        ClickhouseType::Nullable(Box::new(self))
    }

    /// The type that the database receives for this one.
    pub fn native(&self) -> (r: DbType)
        ensures
            r@ == native_of(self@),
        decreases self,
    {
        match self {
            ClickhouseType::Native(n) => n.clone(),
            ClickhouseType::Bool => DbType::Num(NumKind::UInt8),
            ClickhouseType::Json => DbType::String,
            ClickhouseType::Nullable(b) => DbType::Nullable(Box::new((**b).native())),
        }
    }

    /// The name of the type, as the database writes it.
    pub fn name(&self) -> (r: String)
        ensures
            r@ == ch_type_text(self@),
        decreases self,
    {
        match self {
            ClickhouseType::Native(n) => n.name(),
            ClickhouseType::Bool => "Bool".to_owned(),
            ClickhouseType::Json => "String".to_owned(),
            ClickhouseType::Nullable(b) => "Nullable(".to_owned().concat((**b).name().as_str()).concat(")"),
        }
    }
}


impl ClickhouseType {
    /// The column type that holds values of this type.
    pub fn column_type(&self) -> (r: Result<ColumnType, Error>)
        ensures
            match column_type_of(self@) {
                Ok(c) => r is Ok && r->Ok_0@ == c,
                Err(e) => r matches Err(Error::UnsupportedClickhouseType(x)) && x@ == e,
            },
        decreases self,
    {
        match self {
            ClickhouseType::Native(n) => match db_column_type_exec(n) {
                Ok(c) => Ok(c),
                Err(e) => Err(Error::UnsupportedClickhouseType(ClickhouseType::Native(e))),
            },
            ClickhouseType::Bool => Ok(ColumnType::Boolean),
            ClickhouseType::Json => Err(Error::UnsupportedClickhouseType(ClickhouseType::Json)),
            ClickhouseType::Nullable(b) => (**b).column_type(),
        }
    }

    /// The database type that stores a column type.
    pub fn from_column_type(c: &ColumnType) -> (r: Result<ClickhouseType, Error>)
        ensures
            match clickhouse_type_of(c@) {
                Ok(t) => r is Ok && r->Ok_0@ == t,
                Err(e) => r matches Err(Error::UnsupportedPolarsType(x)) && x@ == e,
            },
        decreases c,
    {
        match c {
            ColumnType::Num(k) => Ok(ClickhouseType::Native(DbType::Num(*k))),
            ColumnType::String => Ok(ClickhouseType::Native(DbType::String)),
            ColumnType::Boolean => Ok(ClickhouseType::Bool),
            ColumnType::Categorical => Ok(
                ClickhouseType::Native(DbType::LowCardinality(Box::new(DbType::String))),
            ),
            ColumnType::List(b) => {
                let t = ClickhouseType::from_column_type(&**b)?;
                Ok(ClickhouseType::Native(DbType::Array(Box::new(t.native()))))
            },
            _ => Err(Error::UnsupportedPolarsType(c.clone())),
        }
    }
}

impl ColumnType {
    /// Whether two column types are the same.
    pub fn same(&self, o: &ColumnType) -> (r: bool)
        ensures
            r == (self@ == o@),
        decreases self,
    {
        match (self, o) {
            (ColumnType::Num(a), ColumnType::Num(b)) => *a == *b,
            (ColumnType::Boolean, ColumnType::Boolean) => true,
            (ColumnType::String, ColumnType::String) => true,
            (ColumnType::Categorical, ColumnType::Categorical) => true,
            (ColumnType::List(a), ColumnType::List(b)) => (**a).same(&**b),
            (ColumnType::Other(a), ColumnType::Other(b)) => *a == *b,
            (ColumnType::Struct(fa), ColumnType::Struct(fb)) => {
                let ghost va = self@->Struct_0;
                let ghost vb = o@->Struct_0;
                if fa.len() != fb.len() {
                    assert(va.len() != vb.len());
                    return false;
                }
                let mut i: usize = 0;
                while i < fa.len()
                    invariant
                        *self == ColumnType::Struct(*fa),
                        *o == ColumnType::Struct(*fb),
                        va == self@->Struct_0,
                        vb == o@->Struct_0,
                        fa@.len() == fb@.len(),
                        i <= fa@.len(),
                        forall|j: int| 0 <= j < i ==> va[j] == vb[j],
                    decreases fa@.len() - i,
                {
                    proof {
                        assert(decreases_to!(*self => (*self)->Struct_0));
                        assert(decreases_to!(*fa => fa@));
                        assert(decreases_to!(fa@ => fa@[i as int]));
                        assert(decreases_to!(fa@[i as int] => fa@[i as int].dtype));
                    }
                    assert(va[i as int] == fa@[i as int]@);
                    assert(vb[i as int] == fb@[i as int]@);
                    if !(fa[i].name == fb[i].name) || !fa[i].dtype.same(&fb[i].dtype) {
                        return false;
                    }
                    i = i + 1;
                }
                assert(va =~= vb);
                true
            },
            _ => false,
        }
    }
}

fn db_column_type_exec(n: &DbType) -> (r: Result<ColumnType, DbType>)
    ensures
        match db_column_type(n@) {
            Ok(c) => r is Ok && r->Ok_0@ == c,
            Err(e) => r is Err && r->Err_0@ == e,
        },
    decreases n,
{
    match n {
        DbType::Num(k) => Ok(ColumnType::Num(*k)),
        DbType::String => Ok(ColumnType::String),
        DbType::Uuid => Ok(ColumnType::String),
        DbType::Array(b) => {
            let c = db_column_type_exec(&**b)?;
            Ok(ColumnType::List(Box::new(c)))
        },
        DbType::LowCardinality(b) => match &**b {
            DbType::String => Ok(ColumnType::Categorical),
            _ => Err(n.clone()),
        },
        DbType::Nullable(b) => db_column_type_exec(&**b),
        DbType::Other(_) => Err(n.clone()),
    }
}

/// A column type with no boolean inside a list: the database stores a
/// boolean of a list as a plain `UInt8`.
pub open spec fn no_bool_in_list(c: ColTypeV) -> bool {
    match c {
        ColTypeV::List(b) => bool_free(*b),
        _ => true,
    }
}

pub open spec fn bool_free(c: ColTypeV) -> bool
    decreases c,
{
    match c {
        ColTypeV::Boolean => false,
        ColTypeV::List(b) => bool_free(*b),
        _ => true,
    }
}

/// Mapping a supported column type to the database and back gives the same
/// column type, except for booleans inside lists, which come back as `UInt8`.
pub proof fn lemma_column_type_round_trip(c: ColTypeV)
    requires
        clickhouse_type_of(c) is Ok,
        no_bool_in_list(c),
    ensures
        column_type_of(clickhouse_type_of(c)->Ok_0) == Ok::<ColTypeV, ChTypeV>(c),
    decreases c,
{
    if let ColTypeV::List(b) = c {
        lemma_column_type_round_trip(*b);
        if let ColTypeV::List(bb) = *b {
            lemma_column_type_round_trip(*bb);
        }
    }
}

} // verus!
