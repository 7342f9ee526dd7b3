use polarhouse::{ClickhouseType, ColumnType, DbType, Error, NumKind};

fn round_trip(c: ColumnType) -> ColumnType {
    ClickhouseType::from_column_type(&c).unwrap().column_type().unwrap()
}

#[test]
fn column_types_round_trip() {
    let kinds = [
        NumKind::Int8,
        NumKind::Int16,
        NumKind::Int32,
        NumKind::Int64,
        NumKind::UInt8,
        NumKind::UInt16,
        NumKind::UInt32,
        NumKind::UInt64,
        NumKind::Float32,
        NumKind::Float64,
    ];
    for k in kinds {
        assert_eq!(round_trip(ColumnType::Num(k)), ColumnType::Num(k));
    }
    for c in [ColumnType::String, ColumnType::Boolean, ColumnType::Categorical] {
        assert_eq!(round_trip(c.clone()), c);
    }
    let nested = ColumnType::List(Box::new(ColumnType::List(Box::new(ColumnType::String))));
    assert_eq!(round_trip(nested.clone()), nested);
}

#[test]
fn boolean_in_list_comes_back_as_uint8() {
    let c = ColumnType::List(Box::new(ColumnType::Boolean));
    let t = ClickhouseType::from_column_type(&c).unwrap();
    assert_eq!(
        t,
        ClickhouseType::Native(DbType::Array(Box::new(DbType::Num(NumKind::UInt8))))
    );
    assert_eq!(t.column_type().unwrap(), ColumnType::List(Box::new(ColumnType::Num(NumKind::UInt8))));
}

#[test]
fn database_types_to_column_types() {
    assert_eq!(ClickhouseType::Bool.column_type().unwrap(), ColumnType::Boolean);
    assert_eq!(
        ClickhouseType::Native(DbType::Num(NumKind::UInt8)).column_type().unwrap(),
        ColumnType::Num(NumKind::UInt8)
    );
    assert_eq!(ClickhouseType::Native(DbType::Uuid).column_type().unwrap(), ColumnType::String);
    assert_eq!(
        ClickhouseType::Native(DbType::LowCardinality(Box::new(DbType::String)))
            .column_type()
            .unwrap(),
        ColumnType::Categorical
    );
    assert_eq!(
        ClickhouseType::Native(DbType::Nullable(Box::new(DbType::Num(NumKind::Int32))))
            .column_type()
            .unwrap(),
        ColumnType::Num(NumKind::Int32)
    );
    assert_eq!(
        ClickhouseType::Nullable(Box::new(ClickhouseType::Bool)).column_type().unwrap(),
        ColumnType::Boolean
    );
}

#[test]
fn unsupported_types() {
    let date = DbType::Other("Date".to_string());
    match ClickhouseType::Native(DbType::Array(Box::new(date.clone()))).column_type() {
        Err(Error::UnsupportedClickhouseType(t)) => assert_eq!(t, ClickhouseType::Native(date)),
        other => panic!("unexpected {:?}", other),
    }
    assert!(matches!(
        ClickhouseType::Json.column_type(),
        Err(Error::UnsupportedClickhouseType(ClickhouseType::Json))
    ));
    assert!(matches!(
        ClickhouseType::Native(DbType::LowCardinality(Box::new(DbType::Num(NumKind::Int8)))).column_type(),
        Err(Error::UnsupportedClickhouseType(_))
    ));
    let other = ColumnType::Other("Date".to_string());
    match ClickhouseType::from_column_type(&ColumnType::List(Box::new(other.clone()))) {
        Err(Error::UnsupportedPolarsType(t)) => assert_eq!(t, other),
        r => panic!("unexpected {:?}", r),
    }
}

#[test]
fn native_types() {
    assert_eq!(ClickhouseType::Bool.native(), DbType::Num(NumKind::UInt8));
    assert_eq!(ClickhouseType::Json.native(), DbType::String);
    assert_eq!(
        ClickhouseType::Bool.nullable().native(),
        DbType::Nullable(Box::new(DbType::Num(NumKind::UInt8)))
    );
}

#[test]
fn type_names() {
    assert_eq!(ClickhouseType::Bool.name(), "Bool");
    assert_eq!(ClickhouseType::Json.name(), "String");
    assert_eq!(ClickhouseType::Bool.nullable().name(), "Nullable(Bool)");
    let t = ClickhouseType::Native(DbType::Array(Box::new(DbType::LowCardinality(Box::new(
        DbType::String,
    )))));
    assert_eq!(t.name(), "Array(LowCardinality(String))");
    assert_eq!(DbType::Num(NumKind::Float64).name(), "Float64");
    assert_eq!(DbType::Uuid.name(), "UUID");
    assert_eq!(DbType::Other("Date".to_string()).name(), "Date");
}

#[test]
fn types_from_descriptions() {
    assert_eq!(ClickhouseType::from_description("Bool", None).unwrap(), ClickhouseType::Bool);
    assert_eq!(
        ClickhouseType::from_description("Nullable(Boolean)", None).unwrap(),
        ClickhouseType::Bool.nullable()
    );
    assert_eq!(
        ClickhouseType::from_description("Int32", Some(DbType::Num(NumKind::Int32))).unwrap(),
        ClickhouseType::Native(DbType::Num(NumKind::Int32))
    );
    match ClickhouseType::from_description("Nope(", None) {
        Err(Error::UnparsableType(s)) => assert_eq!(s, "Nope("),
        r => panic!("unexpected {:?}", r),
    }
}
