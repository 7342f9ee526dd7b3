use polarhouse::codec::{decode, encode};
use polarhouse::{ClickhouseType, ColumnData, ColumnType, DbType, Error, NumKind, Value};

fn s(v: &str) -> Value {
    Value::String(v.as_bytes().to_vec())
}

fn native(t: DbType) -> ClickhouseType {
    ClickhouseType::Native(t)
}

#[test]
fn int64_values_against_string_type_mismatch() {
    let values = vec![Value::Num(NumKind::Int64, 1), Value::Num(NumKind::Int64, 2)];
    match decode(&values, &native(DbType::String)) {
        Err(Error::MismatchingValueType(found, expected)) => {
            assert_eq!(found, DbType::Num(NumKind::Int64));
            assert_eq!(expected, DbType::String);
        },
        r => panic!("unexpected {:?}", r),
    }
}

#[test]
fn first_mismatching_value_is_reported() {
    let values = vec![Value::Null, s("a"), Value::Num(NumKind::UInt8, 1), Value::Uuid(3)];
    match decode(&values, &native(DbType::String)) {
        Err(Error::MismatchingValueType(found, _)) => assert_eq!(found, DbType::Num(NumKind::UInt8)),
        r => panic!("unexpected {:?}", r),
    }
}

#[test]
fn decode_strings_and_nulls() {
    let values = vec![s("Gotham"), Value::Null, s("NY")];
    let t = native(DbType::Nullable(Box::new(DbType::String)));
    assert_eq!(
        decode(&values, &t).unwrap(),
        ColumnData::Utf8(vec![Some("Gotham".to_string()), None, Some("NY".to_string())])
    );
}

#[test]
fn decode_invalid_utf8_replaces_bytes() {
    let values = vec![Value::String(vec![0x66, 0xff, 0x6f])];
    assert_eq!(
        decode(&values, &native(DbType::String)).unwrap(),
        ColumnData::Utf8(vec![Some("f\u{FFFD}o".to_string())])
    );
}

#[test]
fn decode_booleans() {
    let values = vec![Value::Num(NumKind::UInt8, 1), Value::Num(NumKind::UInt8, 0), Value::Null, Value::Num(NumKind::UInt8, 7)];
    let t = ClickhouseType::Bool.nullable();
    assert_eq!(
        decode(&values, &t).unwrap(),
        ColumnData::Boolean(vec![Some(true), Some(false), None, Some(true)])
    );
}

#[test]
fn decode_numbers() {
    let values = vec![Value::Num(NumKind::Int32, -5), Value::Null, Value::Num(NumKind::Int32, 30)];
    let t = native(DbType::Nullable(Box::new(DbType::Num(NumKind::Int32))));
    assert_eq!(
        decode(&values, &t).unwrap(),
        ColumnData::Num(NumKind::Int32, vec![Some(-5), None, Some(30)])
    );
}

#[test]
fn decode_uuid_as_text() {
    let values = vec![Value::Uuid(0xa1a2a3a4b1b2c1c2d1d2d3d4d5d6d7d8)];
    assert_eq!(
        decode(&values, &native(DbType::Uuid)).unwrap(),
        ColumnData::Utf8(vec![Some("a1a2a3a4-b1b2-c1c2-d1d2-d3d4d5d6d7d8".to_string())])
    );
}

#[test]
fn decode_low_cardinality() {
    let values = vec![s("x"), s("y")];
    let t = native(DbType::LowCardinality(Box::new(DbType::String)));
    assert_eq!(
        decode(&values, &t).unwrap(),
        ColumnData::Categorical(vec![Some("x".to_string()), Some("y".to_string())])
    );
}

#[test]
fn decode_arrays() {
    let values = vec![Value::Array(vec![s("intelligence")]), Value::Array(vec![s("flying"), s("vision")])];
    let t = native(DbType::Array(Box::new(DbType::String)));
    assert_eq!(
        decode(&values, &t).unwrap(),
        ColumnData::List(
            ColumnType::String,
            vec![
                Some(ColumnData::Utf8(vec![Some("intelligence".to_string())])),
                Some(ColumnData::Utf8(vec![Some("flying".to_string()), Some("vision".to_string())])),
            ]
        )
    );
}

#[test]
fn decode_null_array_fails() {
    let values = vec![Value::Array(vec![s("a")]), Value::Null];
    let t = native(DbType::Array(Box::new(DbType::String)));
    assert!(matches!(decode(&values, &t), Err(Error::UnexpectedNull)));
}

#[test]
fn decode_unsupported_type() {
    let t = native(DbType::Other("Date".to_string()));
    let values = vec![Value::Other("Date".to_string())];
    assert!(matches!(decode(&values, &t), Err(Error::UnsupportedClickhouseType(_))));
    assert!(matches!(decode(&vec![], &ClickhouseType::Json), Err(Error::UnsupportedClickhouseType(_))));
}

#[test]
fn decode_empty_gives_empty_column() {
    assert_eq!(decode(&vec![], &ClickhouseType::Bool).unwrap(), ColumnData::Boolean(vec![]));
}

#[test]
fn encode_columns() {
    let col = ColumnData::Utf8(vec![Some("ab".to_string()), None]);
    assert_eq!(encode(&col, &native(DbType::String)).unwrap(), vec![s("ab"), Value::Null]);
    let col = ColumnData::Boolean(vec![Some(true), None, Some(false)]);
    assert_eq!(
        encode(&col, &ClickhouseType::Bool.nullable()).unwrap(),
        vec![Value::Num(NumKind::UInt8, 1), Value::Null, Value::Num(NumKind::UInt8, 0)]
    );
    let col = ColumnData::Categorical(vec![Some("x".to_string()), None]);
    let t = native(DbType::LowCardinality(Box::new(DbType::String)));
    assert_eq!(encode(&col, &t).unwrap(), vec![s("x"), Value::Null]);
    let col = ColumnData::List(
        ColumnType::Num(NumKind::Int8),
        vec![Some(ColumnData::Num(NumKind::Int8, vec![Some(1), Some(-2)])), None],
    );
    let t = native(DbType::Array(Box::new(DbType::Num(NumKind::Int8))));
    assert_eq!(
        encode(&col, &t).unwrap(),
        vec![
            Value::Array(vec![Value::Num(NumKind::Int8, 1), Value::Num(NumKind::Int8, -2)]),
            Value::Null
        ]
    );
}

#[test]
fn encode_series_mismatch() {
    let col = ColumnData::Num(NumKind::Int32, vec![Some(1)]);
    match encode(&col, &native(DbType::Num(NumKind::Int64))) {
        Err(Error::MismatchingSeriesType(t)) => assert_eq!(t, ColumnType::Num(NumKind::Int32)),
        r => panic!("unexpected {:?}", r),
    }
    assert!(matches!(
        encode(&col, &native(DbType::String)),
        Err(Error::MismatchingSeriesType(ColumnType::Num(NumKind::Int32)))
    ));
}

#[test]
fn encode_unsupported_names_the_type() {
    let col = ColumnData::Utf8(vec![Some("a".to_string())]);
    let t = native(DbType::Nullable(Box::new(DbType::Uuid)));
    match encode(&col, &t) {
        Err(Error::UnsupportedClickhouseType(x)) => assert_eq!(x, native(DbType::Uuid)),
        r => panic!("unexpected {:?}", r),
    }
}

#[test]
fn encode_list_row_error_is_passed_on() {
    let col = ColumnData::List(
        ColumnType::String,
        vec![Some(ColumnData::Utf8(vec![Some("a".to_string())])), Some(ColumnData::Num(NumKind::Int8, vec![Some(1)]))],
    );
    let t = native(DbType::Array(Box::new(DbType::String)));
    match encode(&col, &t) {
        Err(Error::MismatchingSeriesType(x)) => assert_eq!(x, ColumnType::Num(NumKind::Int8)),
        r => panic!("unexpected {:?}", r),
    }
}

#[test]
fn encode_unsupported() {
    let col = ColumnData::Utf8(vec![Some("a".to_string())]);
    assert!(matches!(encode(&col, &native(DbType::Uuid)), Err(Error::UnsupportedClickhouseType(_))));
    assert!(matches!(encode(&col, &ClickhouseType::Json), Err(Error::UnsupportedClickhouseType(_))));
}

#[test]
fn encode_then_decode_gives_column_back() {
    let col = ColumnData::Utf8(vec![Some("héllo".to_string()), None, Some("".to_string())]);
    let t = native(DbType::Nullable(Box::new(DbType::String)));
    let values = encode(&col, &t).unwrap();
    assert_eq!(decode(&values, &t).unwrap(), col);
    let col = ColumnData::Num(NumKind::Float64, vec![Some(2.5f64.to_bits() as i128), None]);
    let t = native(DbType::Num(NumKind::Float64));
    assert_eq!(decode(&encode(&col, &t).unwrap(), &t).unwrap(), col);
}
