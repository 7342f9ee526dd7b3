//! Converting the values of a block into dataframe columns, and back.

use vstd::prelude::*;

use crate::columns::{
    appended, dtype_of, lemma_rows_view_push, lemma_texts_view_push, rows_view, texts_view, ColDataV, ColumnData,
};
use crate::errors::Error;
use crate::types::{
    column_type_of, native_of, strip_low_cardinality, strip_null, ChTypeV, ClickhouseType, ColTypeV, DbType,
    DbTypeV, NumKind,
};
use vstd::string::StrSliceExecFns;
use crate::values::{
    bytes_text, guessed_type, lemma_values_view_push, text_of_bytes, uuid_string, uuid_text, values_view, Value, ValueV,
};

verus! {

pub open spec fn db_depth(n: DbTypeV) -> nat
    decreases n,
{
    match n {
        DbTypeV::LowCardinality(b) => db_depth(*b) + 1,
        DbTypeV::Array(b) => db_depth(*b) + 1,
        DbTypeV::Nullable(b) => db_depth(*b) + 1,
        _ => 1,
    }
}

pub open spec fn ch_depth(t: ChTypeV) -> nat
    decreases t,
{
    match t {
        ChTypeV::Native(n) => db_depth(n),
        ChTypeV::Nullable(b) => ch_depth(*b) + 1,
        _ => 1,
    }
}

/// The type that every non-null value declared with type `t` must carry.
pub open spec fn expected_tag(t: ChTypeV) -> DbTypeV {
    strip_low_cardinality(strip_null(native_of(t)))
}

pub open spec fn tag_ok(v: ValueV, e: DbTypeV) -> bool {
    v is Null || guessed_type(v) == e
}

pub open spec fn tags_match(vals: Seq<ValueV>, e: DbTypeV) -> bool {
    forall|i: int| 0 <= i < vals.len() ==> tag_ok(#[trigger] vals[i], e)
}

/// `i` is the first value whose type is not `e`.
pub open spec fn first_mismatch(vals: Seq<ValueV>, e: DbTypeV, i: int) -> bool {
    &&& 0 <= i < vals.len()
    &&& !tag_ok(vals[i], e)
    &&& forall|j: int| 0 <= j < i ==> tag_ok(#[trigger] vals[j], e)
}

/// Whether values declared with type `t` decode without error.
pub open spec fn decodable(vals: Seq<ValueV>, t: ChTypeV) -> bool
    decreases ch_depth(t),
{
    &&& tags_match(vals, expected_tag(t))
    &&& column_type_of(t) is Ok
    &&& match t {
        ChTypeV::Nullable(b) => decodable(vals, *b),
        ChTypeV::Native(DbTypeV::Nullable(m)) => decodable(vals, ChTypeV::Native(*m)),
        ChTypeV::Native(DbTypeV::Array(m)) => forall|i: int|
            0 <= i < vals.len() ==> (#[trigger] vals[i]) is Array && decodable(
                vals[i]->Array_0,
                ChTypeV::Native(*m),
            ),
        _ => true,
    }
}

pub open spec fn num_cells(vals: Seq<ValueV>) -> Seq<Option<i128>> {
    Seq::new(
        vals.len(),
        |i: int|
            match vals[i] {
                ValueV::Num(_, x) => Some(x),
                _ => None,
            },
    )
}

pub open spec fn bool_cells(vals: Seq<ValueV>) -> Seq<Option<bool>> {
    Seq::new(
        vals.len(),
        |i: int|
            match vals[i] {
                ValueV::Num(_, x) => Some(x > 0),
                _ => None,
            },
    )
}

pub open spec fn text_cells(vals: Seq<ValueV>) -> Seq<Option<Seq<char>>> {
    Seq::new(
        vals.len(),
        |i: int|
            match vals[i] {
                ValueV::String(b) => Some(bytes_text(b)),
                _ => None,
            },
    )
}

pub open spec fn uuid_cells(vals: Seq<ValueV>) -> Seq<Option<Seq<char>>> {
    Seq::new(
        vals.len(),
        |i: int|
            match vals[i] {
                ValueV::Uuid(u) => Some(uuid_text(u)),
                _ => None,
            },
    )
}

/// The column that values declared with type `t` decode to, when they are decodable.
pub open spec fn decoded(vals: Seq<ValueV>, t: ChTypeV) -> ColDataV
    decreases ch_depth(t), 1nat,
{
    match t {
        ChTypeV::Nullable(b) => decoded(vals, *b),
        ChTypeV::Bool => ColDataV::Boolean(bool_cells(vals)),
        ChTypeV::Native(n) => match n {
            DbTypeV::Nullable(m) => decoded(vals, ChTypeV::Native(*m)),
            DbTypeV::Array(m) => ColDataV::List(
                column_type_of(ChTypeV::Native(*m))->Ok_0,
                decoded_rows(vals, *m),
            ),
            DbTypeV::Num(k) => ColDataV::Num(k, num_cells(vals)),
            DbTypeV::String => ColDataV::Utf8(text_cells(vals)),
            DbTypeV::Uuid => ColDataV::Utf8(uuid_cells(vals)),
            DbTypeV::LowCardinality(_) => ColDataV::Categorical(text_cells(vals)),
            DbTypeV::Other(_) => ColDataV::Utf8(Seq::empty()),
        },
        ChTypeV::Json => ColDataV::Utf8(Seq::empty()),
    }
}

/// The rows of a list column decoded from arrays of values of type `m`.
pub open spec fn decoded_rows(vals: Seq<ValueV>, m: DbTypeV) -> Seq<Option<ColDataV>>
    decreases db_depth(m) + 1, 0nat,
{
    Seq::new(
        vals.len(),
        |i: int|
            match vals[i] {
                ValueV::Array(xs) => Some(decoded(xs, ChTypeV::Native(m))),
                _ => None,
            },
    )
}

/// Row `i` is the first that is not an array of values of type `m` that decode.
pub open spec fn first_bad_row(vals: Seq<ValueV>, m: DbTypeV, i: int) -> bool {
    &&& 0 <= i < vals.len()
    &&& !(vals[i] is Array && decodable(vals[i]->Array_0, ChTypeV::Native(m)))
    &&& forall|j: int|
        0 <= j < i ==> (#[trigger] vals[j]) is Array && decodable(vals[j]->Array_0, ChTypeV::Native(m))
}

/// The error that decoding values declared with type `t` gives, when they are not decodable.
pub open spec fn decode_failure(e: Error, vals: Seq<ValueV>, t: ChTypeV) -> bool
    decreases ch_depth(t), 1nat,
{
    if !tags_match(vals, expected_tag(t)) {
        &&& e matches Error::MismatchingValueType(found, exp)
        &&& exp@ == expected_tag(t)
        &&& exists|i: int| first_mismatch(vals, exp@, i) && found@ == guessed_type(vals[i])
    } else if column_type_of(t) is Err {
        e matches Error::UnsupportedClickhouseType(u) && u@ == column_type_of(t)->Err_0
    } else {
        match t {
            ChTypeV::Nullable(b) => decode_failure(e, vals, *b),
            ChTypeV::Native(DbTypeV::Nullable(m)) => decode_failure(e, vals, ChTypeV::Native(*m)),
            ChTypeV::Native(DbTypeV::Array(m)) => exists|i: int|
                first_bad_row(vals, *m, i) && row_failure(e, vals, *m, i),
            _ => false,
        }
    }
}

/// The error that row `i` of an array column with element type `m` gives.
pub open spec fn row_failure(e: Error, vals: Seq<ValueV>, m: DbTypeV, i: int) -> bool
    decreases db_depth(m) + 1, 0nat,
{
    if 0 <= i < vals.len() {
        match vals[i] {
            ValueV::Null => e is UnexpectedNull,
            ValueV::Array(xs) => decode_failure(e, xs, ChTypeV::Native(m)),
            v => e matches Error::UnsupportedClickhouseType(u) && u@ == ChTypeV::Native(guessed_type(v)),
        }
    } else {
        false
    }
}

fn expected_tag_of(t: &ClickhouseType) -> (r: DbType)
    ensures
        r@ == expected_tag(t@),
{
    let n = t.native();
    let n = match n {
        DbType::Nullable(b) => *b,
        other => {
            assert(!(other@ is Nullable));
            other
        },
    };
    assert(n@ == strip_null(native_of(t@)));
    match n {
        DbType::LowCardinality(b) => *b,
        other => {
            assert(!(other@ is LowCardinality));
            other
        },
    }
}

fn decode_nums(values: &Vec<Value>) -> (r: Vec<Option<i128>>)
    ensures
        r@ == num_cells(values_view(values@)),
{
    let ghost vv = values_view(values@);
    let mut out: Vec<Option<i128>> = Vec::new();
    let mut i: usize = 0;
    while i < values.len()
        invariant
            vv == values_view(values@),
            i <= values@.len(),
            out@ =~= num_cells(vv).subrange(0, i as int),
        decreases values@.len() - i,
    {
        assert(vv[i as int] == values@[i as int]@);
        let c = match &values[i] {
            Value::Num(_, x) => Some(*x),
            _ => None,
        };
        out.push(c);
        i = i + 1;
    }
    out
}

fn decode_bools(values: &Vec<Value>) -> (r: Vec<Option<bool>>)
    ensures
        r@ == bool_cells(values_view(values@)),
{
    let ghost vv = values_view(values@);
    let mut out: Vec<Option<bool>> = Vec::new();
    let mut i: usize = 0;
    while i < values.len()
        invariant
            vv == values_view(values@),
            i <= values@.len(),
            out@ =~= bool_cells(vv).subrange(0, i as int),
        decreases values@.len() - i,
    {
        assert(vv[i as int] == values@[i as int]@);
        let c = match &values[i] {
            Value::Num(_, x) => Some(*x > 0),
            _ => None,
        };
        out.push(c);
        i = i + 1;
    }
    out
}

fn decode_texts(values: &Vec<Value>) -> (r: Vec<Option<String>>)
    ensures
        texts_view(r@) == text_cells(values_view(values@)),
{
    let ghost vv = values_view(values@);
    let mut out: Vec<Option<String>> = Vec::new();
    let mut i: usize = 0;
    while i < values.len()
        invariant
            vv == values_view(values@),
            i <= values@.len(),
            texts_view(out@) =~= text_cells(vv).subrange(0, i as int),
        decreases values@.len() - i,
    {
        assert(vv[i as int] == values@[i as int]@);
        let c = match &values[i] {
            Value::String(b) => Some(text_of_bytes(b)),
            _ => None,
        };
        proof {
            lemma_texts_view_push(out@, c);
        }
        out.push(c);
        i = i + 1;
        assert(texts_view(out@) =~= text_cells(vv).subrange(0, i as int));
    }
    out
}

fn decode_uuids(values: &Vec<Value>) -> (r: Vec<Option<String>>)
    ensures
        texts_view(r@) == uuid_cells(values_view(values@)),
{
    let ghost vv = values_view(values@);
    let mut out: Vec<Option<String>> = Vec::new();
    let mut i: usize = 0;
    while i < values.len()
        invariant
            vv == values_view(values@),
            i <= values@.len(),
            texts_view(out@) =~= uuid_cells(vv).subrange(0, i as int),
        decreases values@.len() - i,
    {
        assert(vv[i as int] == values@[i as int]@);
        let c = match &values[i] {
            Value::Uuid(u) => Some(uuid_string(*u)),
            _ => None,
        };
        proof {
            lemma_texts_view_push(out@, c);
        }
        out.push(c);
        i = i + 1;
        assert(texts_view(out@) =~= uuid_cells(vv).subrange(0, i as int));
    }
    out
}


/// Decodes the values of one column, declared with type `t`.
///
/// Every non-null value must carry the type that `t` declares (nullable and
/// low-cardinality wrappers removed); the first one that does not gives
/// `MismatchingValueType`. A type with no column type gives
/// `UnsupportedClickhouseType`; a null array gives `UnexpectedNull`.
pub fn decode(values: &Vec<Value>, t: &ClickhouseType) -> (r: Result<ColumnData, Error>)
    ensures
        r is Ok <==> decodable(values_view(values@), t@),
        r is Ok ==> r->Ok_0@ == decoded(values_view(values@), t@),
        !tags_match(values_view(values@), expected_tag(t@)) ==> {
            &&& r matches Err(Error::MismatchingValueType(found, exp))
            &&& exp@ == expected_tag(t@)
            &&& exists|i: int|
                first_mismatch(values_view(values@), exp@, i) && found@ == guessed_type(
                    values_view(values@)[i],
                )
        },
        tags_match(values_view(values@), expected_tag(t@)) && column_type_of(t@) is Err ==> (r matches Err(
            Error::UnsupportedClickhouseType(u),
        ) && u@ == column_type_of(t@)->Err_0),
        r is Err ==> decode_failure(r->Err_0, values_view(values@), t@),
    decreases ch_depth(t@), 1nat,
{
    let ghost vv = values_view(values@);
    let expected = expected_tag_of(t);
    let mut i: usize = 0;
    while i < values.len()
        invariant
            vv == values_view(values@),
            expected@ == expected_tag(t@),
            i <= values@.len(),
            forall|j: int| 0 <= j < i ==> tag_ok(#[trigger] vv[j], expected@),
        decreases values@.len() - i,
    {
        assert(vv[i as int] == values@[i as int]@);
        if !values[i].is_null() {
            let g = values[i].guess_type();
            if !g.same(&expected) {
                assert(first_mismatch(vv, expected@, i as int));
                return Err(Error::MismatchingValueType(g, expected));
            }
        }
        i = i + 1;
    }
    assert(tags_match(vv, expected_tag(t@)));
    let _dtype = t.column_type()?;
    match t {
        ClickhouseType::Nullable(b) => decode(values, &**b),
        ClickhouseType::Bool => Ok(ColumnData::Boolean(decode_bools(values))),
        ClickhouseType::Json => Err(Error::UnsupportedClickhouseType(ClickhouseType::Json)),
        ClickhouseType::Native(n) => match n {
            DbType::Nullable(m) => {
                let inner = ClickhouseType::Native((**m).clone());
                decode(values, &inner)
            },
            DbType::Array(m) => {
                let inner = ClickhouseType::Native((**m).clone()).column_type()?;
                let rows = decode_rows(values, &**m)?;
                Ok(ColumnData::List(inner, rows))
            },
            DbType::Num(k) => Ok(ColumnData::Num(*k, decode_nums(values))),
            DbType::String => Ok(ColumnData::Utf8(decode_texts(values))),
            DbType::Uuid => Ok(ColumnData::Utf8(decode_uuids(values))),
            DbType::LowCardinality(_) => Ok(ColumnData::Categorical(decode_texts(values))),
            DbType::Other(_) => Err(Error::UnsupportedClickhouseType(t.clone())),
        },
    }
}

/// Decodes each array of `values` against the element type `m`, as the rows of a list column.
fn decode_rows(values: &Vec<Value>, m: &DbType) -> (r: Result<Vec<Option<ColumnData>>, Error>)
    ensures
        r is Ok <==> forall|i: int|
            0 <= i < values@.len() ==> (#[trigger] values_view(values@)[i]) is Array && decodable(
                values_view(values@)[i]->Array_0,
                ChTypeV::Native(m@),
            ),
        r is Ok ==> rows_view(r->Ok_0@) == decoded_rows(values_view(values@), m@),
        r is Err ==> exists|i: int|
            first_bad_row(values_view(values@), m@, i) && row_failure(r->Err_0, values_view(values@), m@, i),
    decreases db_depth(m@) + 1, 0nat,
{
    let ghost vv = values_view(values@);
    let inner = ClickhouseType::Native(m.clone());
    let mut out: Vec<Option<ColumnData>> = Vec::new();
    let mut i: usize = 0;
    while i < values.len()
        invariant
            vv == values_view(values@),
            inner@ == ChTypeV::Native(m@),
            i <= values@.len(),
            forall|j: int|
                0 <= j < i ==> (#[trigger] vv[j]) is Array && decodable(vv[j]->Array_0, inner@),
            rows_view(out@) =~= decoded_rows(vv, m@).subrange(0, i as int),
        decreases values@.len() - i,
    {
        assert(vv[i as int] == values@[i as int]@);
        match &values[i] {
            Value::Array(xs) => {
                assert(vv[i as int] == ValueV::Array(values_view(xs@)));
                let c = match decode(xs, &inner) {
                    Ok(c) => c,
                    Err(e) => {
                        assert(first_bad_row(vv, m@, i as int));
                        assert(row_failure(e, vv, m@, i as int));
                        return Err(e);
                    },
                };
                proof {
                    lemma_rows_view_push(out@, Some(c));
                }
                out.push(Some(c));
            },
            Value::Null => {
                assert(first_bad_row(vv, m@, i as int));
                return Err(Error::UnexpectedNull);
            },
            other => {
                assert(first_bad_row(vv, m@, i as int));
                return Err(Error::UnsupportedClickhouseType(ClickhouseType::Native(other.guess_type())));
            },
        }
        i = i + 1;
        assert(rows_view(out@) =~= decoded_rows(vv, m@).subrange(0, i as int));
    }
    Ok(out)
}


/// Whether a column can give the values of type `t`.
pub open spec fn encodable(c: ColDataV, t: ChTypeV) -> bool
    decreases ch_depth(t),
{
    match t {
        ChTypeV::Nullable(b) => encodable(c, *b),
        ChTypeV::Bool => c is Boolean,
        ChTypeV::Json => false,
        ChTypeV::Native(n) => match n {
            DbTypeV::Nullable(m) => encodable(c, ChTypeV::Native(*m)),
            DbTypeV::Num(k) => c is Num && c->Num_0 == k,
            DbTypeV::String => c is Utf8,
            DbTypeV::LowCardinality(m) => *m == DbTypeV::String && c is Categorical,
            DbTypeV::Array(m) => c is List && forall|i: int|
                0 <= i < c->List_1.len() && (#[trigger] c->List_1[i]) is Some ==> encodable(
                    c->List_1[i]->Some_0,
                    ChTypeV::Native(*m),
                ),
            _ => false,
        },
    }
}

/// Whether `encode` handles the type `t` at all, whatever the column.
pub open spec fn encode_supported(t: ChTypeV) -> bool
    decreases ch_depth(t),
{
    match t {
        ChTypeV::Nullable(b) => encode_supported(*b),
        ChTypeV::Bool => true,
        ChTypeV::Json => false,
        ChTypeV::Native(n) => match n {
            DbTypeV::Nullable(m) => encode_supported(ChTypeV::Native(*m)),
            DbTypeV::Num(_) | DbTypeV::String | DbTypeV::Array(_) => true,
            DbTypeV::LowCardinality(m) => *m == DbTypeV::String,
            _ => false,
        },
    }
}

/// Whether the kind of a column is the one that type `t` reads, leaving the rows of a list aside.
pub open spec fn shape_matches(c: ColDataV, t: ChTypeV) -> bool
    decreases ch_depth(t),
{
    match t {
        ChTypeV::Nullable(b) => shape_matches(c, *b),
        ChTypeV::Native(DbTypeV::Nullable(m)) => shape_matches(c, ChTypeV::Native(*m)),
        ChTypeV::Native(DbTypeV::Array(_)) => c is List,
        _ => encodable(c, t),
    }
}

/// Row `i` is the first row of a list column that does not encode with element type `m`.
pub open spec fn first_bad_list_row(rows: Seq<Option<ColDataV>>, m: DbTypeV, i: int) -> bool {
    &&& 0 <= i < rows.len()
    &&& rows[i] is Some
    &&& !encodable(rows[i]->Some_0, ChTypeV::Native(m))
    &&& forall|j: int|
        0 <= j < i && (#[trigger] rows[j]) is Some ==> encodable(rows[j]->Some_0, ChTypeV::Native(m))
}

/// The error that encoding a column with type `t` gives, when it is not encodable:
/// the type itself when `encode` cannot handle it, the column's type when it
/// is of another kind, or the error of the first list row that does not encode.
pub open spec fn encode_failure(e: Error, c: ColDataV, t: ChTypeV) -> bool
    decreases ch_depth(t), 1nat,
{
    match t {
        ChTypeV::Nullable(b) => encode_failure(e, c, *b),
        ChTypeV::Native(DbTypeV::Nullable(m)) => encode_failure(e, c, ChTypeV::Native(*m)),
        ChTypeV::Native(DbTypeV::Array(m)) => if c is List {
            exists|i: int| first_bad_list_row(c->List_1, *m, i) && list_row_failure(e, c->List_1, *m, i)
        } else {
            e matches Error::MismatchingSeriesType(x) && x@ == dtype_of(c)
        },
        _ => if !encode_supported(t) {
            e matches Error::UnsupportedClickhouseType(x) && x@ == t
        } else {
            e matches Error::MismatchingSeriesType(x) && x@ == dtype_of(c)
        },
    }
}

/// The error that row `i` of a list column gives when encoded with element type `m`.
pub open spec fn list_row_failure(e: Error, rows: Seq<Option<ColDataV>>, m: DbTypeV, i: int) -> bool
    decreases db_depth(m) + 1, 0nat,
{
    0 <= i < rows.len() && rows[i] is Some && encode_failure(e, rows[i]->Some_0, ChTypeV::Native(m))
}

pub open spec fn text_value(o: Option<Seq<char>>) -> ValueV {
    match o {
        Some(s) => ValueV::String(vstd::utf8::encode_utf8(s)),
        None => ValueV::Null,
    }
}

/// The values that a column gives for type `t`, when it is encodable.
pub open spec fn encoded(c: ColDataV, t: ChTypeV) -> Seq<ValueV>
    decreases ch_depth(t), 1nat,
{
    match t {
        ChTypeV::Nullable(b) => encoded(c, *b),
        ChTypeV::Native(DbTypeV::Nullable(m)) => encoded(c, ChTypeV::Native(*m)),
        ChTypeV::Native(DbTypeV::Array(m)) => encoded_rows(c->List_1, *m),
        _ => match c {
            ColDataV::Num(k, v) => Seq::new(
                v.len(),
                |i: int|
                    match v[i] {
                        Some(x) => ValueV::Num(k, x),
                        None => ValueV::Null,
                    },
            ),
            ColDataV::Boolean(v) => Seq::new(
                v.len(),
                |i: int|
                    match v[i] {
                        Some(b) => ValueV::Num(
                            NumKind::UInt8,
                            if b {
                                1
                            } else {
                                0
                            },
                        ),
                        None => ValueV::Null,
                    },
            ),
            ColDataV::Utf8(v) => Seq::new(v.len(), |i: int| text_value(v[i])),
            ColDataV::Categorical(v) => Seq::new(v.len(), |i: int| text_value(v[i])),
            _ => Seq::empty(),
        },
    }
}

/// The array values that the rows of a list column give for element type `m`.
pub open spec fn encoded_rows(rows: Seq<Option<ColDataV>>, m: DbTypeV) -> Seq<ValueV>
    decreases db_depth(m) + 1, 0nat,
{
    Seq::new(
        rows.len(),
        |i: int|
            match rows[i] {
                Some(r) => ValueV::Array(encoded(r, ChTypeV::Native(m))),
                None => ValueV::Null,
            },
    )
}

/// Encodes a column as values of type `t`.
///
/// A null cell gives a null value; a boolean gives `UInt8` 1 or 0; a string
/// gives its UTF-8 bytes; each row of a list gives an array. A type that
/// cannot be encoded gives `UnsupportedClickhouseType`; a column of another
/// kind than the type reads gives `MismatchingSeriesType`.
pub fn encode(col: &ColumnData, t: &ClickhouseType) -> (r: Result<Vec<Value>, Error>)
    ensures
        r is Ok <==> encodable(col@, t@),
        r is Ok ==> values_view(r->Ok_0@) == encoded(col@, t@),
        !encode_supported(t@) ==> r matches Err(Error::UnsupportedClickhouseType(_)),
        encode_supported(t@) && !shape_matches(col@, t@) ==> (r matches Err(
            Error::MismatchingSeriesType(x),
        ) && x@ == dtype_of(col@)),
        r is Err ==> encode_failure(r->Err_0, col@, t@),
    decreases ch_depth(t@), 1nat,
{
    match t {
        ClickhouseType::Nullable(b) => encode(col, &**b),
        ClickhouseType::Json => Err(Error::UnsupportedClickhouseType(ClickhouseType::Json)),
        ClickhouseType::Bool => match col {
            ColumnData::Boolean(v) => {
                let mut out: Vec<Value> = Vec::new();
                let mut i: usize = 0;
                while i < v.len()
                    invariant
                        col@ == ColDataV::Boolean(v@),
                        t@ == ChTypeV::Bool,
                        i <= v@.len(),
                        values_view(out@) =~= encoded(col@, t@).subrange(0, i as int),
                    decreases v@.len() - i,
                {
                    let x = match v[i] {
                        Some(b) => Value::Num(NumKind::UInt8, if b { 1 } else { 0 }),
                        None => Value::Null,
                    };
                    proof {
                        lemma_values_view_push(out@, x);
                    }
                    out.push(x);
                    i = i + 1;
                    assert(values_view(out@) =~= encoded(col@, t@).subrange(0, i as int));
                }
                Ok(out)
            },
            _ => Err(Error::MismatchingSeriesType(col.dtype())),
        },
        ClickhouseType::Native(n) => match n {
            DbType::Nullable(m) => {
                let inner = ClickhouseType::Native((**m).clone());
                encode(col, &inner)
            },
            DbType::Num(k) => match col {
                ColumnData::Num(k2, v) if *k2 == *k => {
                    assert(encoded(col@, t@) =~= Seq::new(
                        v@.len(),
                        |i: int|
                            match v@[i] {
                                Some(x) => ValueV::Num(*k, x),
                                None => ValueV::Null,
                            },
                    ));
                    let mut out: Vec<Value> = Vec::new();
                    let mut i: usize = 0;
                    while i < v.len()
                        invariant
                            col@ == ColDataV::Num(*k, v@),
                            t@ == ChTypeV::Native(DbTypeV::Num(*k)),
                            i <= v@.len(),
                            values_view(out@) =~= encoded(col@, t@).subrange(0, i as int),
                        decreases v@.len() - i,
                    {
                        let x = match v[i] {
                            Some(x) => Value::Num(*k, x),
                            None => Value::Null,
                        };
                        proof {
                            lemma_values_view_push(out@, x);
                        }
                        out.push(x);
                        i = i + 1;
                        assert(values_view(out@) =~= encoded(col@, t@).subrange(0, i as int));
                    }
                    Ok(out)
                },
                _ => Err(Error::MismatchingSeriesType(col.dtype())),
            },
            DbType::String => match col {
                ColumnData::Utf8(v) => Ok(encode_texts(v)),
                _ => Err(Error::MismatchingSeriesType(col.dtype())),
            },
            DbType::LowCardinality(m) => match &**m {
                DbType::String => match col {
                    ColumnData::Categorical(v) => Ok(encode_texts(v)),
                    _ => Err(Error::MismatchingSeriesType(col.dtype())),
                },
                _ => Err(Error::UnsupportedClickhouseType(t.clone())),
            },
            DbType::Array(m) => match col {
                ColumnData::List(_, rows) => encode_rows(rows, &**m),
                _ => Err(Error::MismatchingSeriesType(col.dtype())),
            },
            _ => Err(Error::UnsupportedClickhouseType(t.clone())),
        },
    }
}

fn encode_texts(v: &Vec<Option<String>>) -> (r: Vec<Value>)
    ensures
        values_view(r@) == Seq::new(texts_view(v@).len(), |i: int| text_value(texts_view(v@)[i])),
{
    let ghost tv = texts_view(v@);
    let mut out: Vec<Value> = Vec::new();
    let mut i: usize = 0;
    while i < v.len()
        invariant
            tv == texts_view(v@),
            i <= v@.len(),
            values_view(out@) =~= Seq::new(tv.len(), |i: int| text_value(tv[i])).subrange(0, i as int),
        decreases v@.len() - i,
    {
        let x = match &v[i] {
            Some(s) => Value::String(s.as_str().as_bytes_vec()),
            None => Value::Null,
        };
        proof {
            lemma_values_view_push(out@, x);
        }
        out.push(x);
        i = i + 1;
        assert(values_view(out@) =~= Seq::new(tv.len(), |i: int| text_value(tv[i])).subrange(0, i as int));
    }
    out
}

fn encode_rows(rows: &Vec<Option<ColumnData>>, m: &DbType) -> (r: Result<Vec<Value>, Error>)
    ensures
        r is Ok <==> forall|i: int|
            0 <= i < rows@.len() && (#[trigger] rows_view(rows@)[i]) is Some ==> encodable(
                rows_view(rows@)[i]->Some_0,
                ChTypeV::Native(m@),
            ),
        r is Ok ==> values_view(r->Ok_0@) == encoded_rows(rows_view(rows@), m@),
        r is Err ==> exists|i: int|
            first_bad_list_row(rows_view(rows@), m@, i) && list_row_failure(r->Err_0, rows_view(rows@), m@, i),
    decreases db_depth(m@) + 1, 0nat,
{
    let ghost rv = rows_view(rows@);
    let inner = ClickhouseType::Native(m.clone());
    let mut out: Vec<Value> = Vec::new();
    let mut i: usize = 0;
    while i < rows.len()
        invariant
            rv == rows_view(rows@),
            inner@ == ChTypeV::Native(m@),
            i <= rows@.len(),
            forall|j: int|
                0 <= j < i && (#[trigger] rv[j]) is Some ==> encodable(rv[j]->Some_0, inner@),
            values_view(out@) =~= encoded_rows(rv, m@).subrange(0, i as int),
        decreases rows@.len() - i,
    {
        let x = match &rows[i] {
            Some(c) => {
                assert(rv[i as int] == Some(c@));
                match encode(c, &inner) {
                    Ok(v) => Value::Array(v),
                    Err(e) => {
                        assert(first_bad_list_row(rv, m@, i as int));
                        assert(list_row_failure(e, rv, m@, i as int));
                        return Err(e);
                    },
                }
            },
            None => {
                assert(rv[i as int] is None);
                Value::Null
            },
        };
        proof {
            lemma_values_view_push(out@, x);
        }
        out.push(x);
        i = i + 1;
        assert(values_view(out@) =~= encoded_rows(rv, m@).subrange(0, i as int));
    }
    Ok(out)
}


/// Whether every row of every list column has the list's element type.
pub open spec fn well_typed(c: ColDataV) -> bool
    decreases c,
{
    match c {
        ColDataV::List(t, rows) => forall|i: int|
            0 <= i < rows.len() && (#[trigger] rows[i]) is Some ==> dtype_of(rows[i]->Some_0) == t
                && well_typed(rows[i]->Some_0),
        _ => true,
    }
}

/// Encoding a column and decoding its values with the same type gives the
/// column back, null cells included, whenever the column is encodable, the
/// type's column type is the column's, and its values pass the decoder's
/// checks (which reject, for instance, an empty list of numbers, whose type
/// the driver reads as `Array(String)`).
pub proof fn lemma_codec_round_trip(c: ColDataV, t: ChTypeV)
    requires
        well_typed(c),
        encodable(c, t),
        column_type_of(t) == Ok::<ColTypeV, ChTypeV>(dtype_of(c)),
        decodable(encoded(c, t), t),
    ensures
        decoded(encoded(c, t), t) == c,
    decreases ch_depth(t),
{
    broadcast use vstd::utf8::encode_utf8_valid_utf8, vstd::utf8::encode_utf8_decode_utf8;

    let vals = encoded(c, t);
    match t {
        ChTypeV::Nullable(b) => {
            lemma_codec_round_trip(c, *b);
        },
        ChTypeV::Bool => {
            let v = c->Boolean_0;
            assert(bool_cells(vals) =~= v);
        },
        ChTypeV::Json => {},
        ChTypeV::Native(n) => match n {
            DbTypeV::Nullable(m) => {
                lemma_codec_round_trip(c, ChTypeV::Native(*m));
            },
            DbTypeV::Num(k) => {
                let v = c->Num_1;
                assert(num_cells(vals) =~= v);
            },
            DbTypeV::String => {
                let v = c->Utf8_0;
                assert(text_cells(vals) =~= v);
            },
            DbTypeV::LowCardinality(_) => {
                let v = c->Categorical_0;
                assert(text_cells(vals) =~= v);
            },
            DbTypeV::Array(m) => {
                let rows = c->List_1;
                let inner = ChTypeV::Native(*m);
                assert(column_type_of(inner) == Ok::<ColTypeV, ChTypeV>(c->List_0));
                assert(vals == encoded_rows(rows, *m));
                assert(vals.len() == rows.len());
                assert(forall|i: int|
                    0 <= i < vals.len() ==> (#[trigger] vals[i]) is Array && decodable(
                        vals[i]->Array_0,
                        inner,
                    ));
                assert forall|i: int| 0 <= i < rows.len() implies decoded_rows(vals, *m)[i]
                    == rows[i] by {
                    assert(vals[i] is Array);
                    assert(rows[i] is Some);
                    let r = rows[i]->Some_0;
                    assert(vals[i] == ValueV::Array(encoded(r, inner)));
                    lemma_codec_round_trip(r, inner);
                }
                assert(decoded_rows(vals, *m) =~= rows);
            },
            _ => {},
        },
    }
}


/// Decoding values in two runs and appending the two columns is decoding
/// them at once: a result built block by block is the column of all its values.
pub proof fn lemma_decode_concat(v1: Seq<ValueV>, v2: Seq<ValueV>, t: ChTypeV)
    requires
        decodable(v1 + v2, t),
    ensures
        decodable(v1, t),
        decodable(v2, t),
        appended(decoded(v1, t), decoded(v2, t)) == Some(decoded(v1 + v2, t)),
    decreases ch_depth(t),
{
    let v = v1 + v2;
    let e = expected_tag(t);
    assert forall|i: int| 0 <= i < v1.len() implies tag_ok(#[trigger] v1[i], e) by {
        assert(v[i] == v1[i]);
    }
    assert forall|i: int| 0 <= i < v2.len() implies tag_ok(#[trigger] v2[i], e) by {
        assert(v[v1.len() + i] == v2[i]);
    }
    match t {
        ChTypeV::Nullable(b) => {
            lemma_decode_concat(v1, v2, *b);
        },
        ChTypeV::Bool => {
            assert(bool_cells(v) =~= bool_cells(v1) + bool_cells(v2));
        },
        ChTypeV::Json => {},
        ChTypeV::Native(n) => match n {
            DbTypeV::Nullable(m) => {
                lemma_decode_concat(v1, v2, ChTypeV::Native(*m));
            },
            DbTypeV::Array(m) => {
                let inner = ChTypeV::Native(*m);
                assert(forall|i: int|
                    0 <= i < v.len() ==> (#[trigger] v[i]) is Array && decodable(v[i]->Array_0, inner));
                assert forall|i: int| 0 <= i < v1.len() implies (#[trigger] v1[i]) is Array && decodable(
                    v1[i]->Array_0,
                    inner,
                ) by {
                    assert(v[i] == v1[i]);
                }
                assert forall|i: int| 0 <= i < v2.len() implies (#[trigger] v2[i]) is Array && decodable(
                    v2[i]->Array_0,
                    inner,
                ) by {
                    assert(v[v1.len() + i] == v2[i]);
                }
                assert(decoded_rows(v, *m) =~= decoded_rows(v1, *m) + decoded_rows(v2, *m));
            },
            DbTypeV::Num(_) => {
                assert(num_cells(v) =~= num_cells(v1) + num_cells(v2));
            },
            DbTypeV::String | DbTypeV::LowCardinality(_) => {
                assert(text_cells(v) =~= text_cells(v1) + text_cells(v2));
            },
            DbTypeV::Uuid => {
                assert(uuid_cells(v) =~= uuid_cells(v1) + uuid_cells(v2));
            },
            DbTypeV::Other(_) => {},
        },
    }
}

} // verus!
