use polarhouse::{
    get_df_from_blocks, http_insert, is_http_address, replay_first, Block, ClickhouseTable,
    ClickhouseType, Column, ColumnData, DbType, Error, HttpBlockAdapter, HttpError, NumKind,
    Value,
};

fn header(types: &[(&str, DbType)]) -> Block {
    Block {
        rows: 0,
        column_types: types.iter().map(|(n, t)| (n.to_string(), t.clone())).collect(),
        column_data: vec![],
    }
}

fn data_block(types: &[(&str, DbType)], cols: Vec<(&str, Vec<Value>)>) -> Block {
    let rows = cols.first().map(|c| c.1.len() as u64).unwrap_or(0);
    Block {
        rows,
        column_types: types.iter().map(|(n, t)| (n.to_string(), t.clone())).collect(),
        column_data: cols.into_iter().map(|(n, v)| (n.to_string(), v)).collect(),
    }
}

fn s(v: &str) -> Value {
    Value::String(v.as_bytes().to_vec())
}

fn superheroes() -> Vec<Column> {
    let text = |v: &[Option<&str>]| ColumnData::Utf8(v.iter().map(|x| x.map(|y| y.to_string())).collect());
    vec![
        Column { name: "name".to_string(), data: text(&[Some("Batman"), Some("Superman")]) },
        Column { name: "is_rich".to_string(), data: ColumnData::Boolean(vec![Some(true), None]) },
        Column { name: "age".to_string(), data: ColumnData::Num(NumKind::Int32, vec![Some(30), None]) },
        Column {
            name: "powers".to_string(),
            data: ColumnData::List(
                polarhouse::ColumnType::String,
                vec![
                    Some(text(&[Some("intelligence")])),
                    Some(text(&[Some("flying"), Some("vision")])),
                ],
            ),
        },
        Column {
            name: "address".to_string(),
            data: ColumnData::Struct(vec![
                Column {
                    name: "city".to_string(),
                    data: ColumnData::Struct(vec![
                        Column { name: "city".to_string(), data: text(&[Some("Gotham"), Some("New York")]) },
                        Column { name: "state".to_string(), data: text(&[None, Some("NY")]) },
                    ]),
                },
                Column { name: "country".to_string(), data: text(&[Some("USA"), Some("USA")]) },
            ]),
        },
    ]
}

#[test]
fn insert_then_query_round_trip() {
    let df = superheroes();
    let schema: Vec<polarhouse::Field> = df
        .iter()
        .map(|c| polarhouse::Field { name: c.name.clone(), dtype: c.data.dtype() })
        .collect();
    let nullables = vec!["age".to_string(), "is_rich".to_string(), "address.city.state".to_string()];
    let table = ClickhouseTable::from_polars_schema("superheroes", &schema, vec![], &nullables).unwrap();
    let mut assembler = table.blocks_from_df(&df, vec![]).unwrap();
    let mut blocks = Vec::new();
    while let Some(b) = assembler.next_block() {
        blocks.push(b);
    }
    assert_eq!(blocks.len(), 1);
    let mut stream = vec![Block { rows: 0, column_types: blocks[0].column_types.clone(), column_data: vec![] }];
    stream.extend(blocks);
    let overrides: Vec<(String, ClickhouseType)> = table.types.clone();
    let back = get_df_from_blocks(stream, overrides).unwrap();
    assert_eq!(back, df);
}

#[test]
fn query_without_rows_gives_no_columns() {
    let types = [("a", DbType::Num(NumKind::Int64)), ("b", DbType::String)];
    let out = get_df_from_blocks(vec![header(&types), data_block(&types, vec![("a", vec![]), ("b", vec![])])], vec![]).unwrap();
    assert!(out.is_empty());
    let out = get_df_from_blocks(vec![header(&types)], vec![]).unwrap();
    assert!(out.is_empty());
}

#[test]
fn columns_without_rows_are_dropped() {
    let types = [("a", DbType::Num(NumKind::Int64)), ("b", DbType::String)];
    let out = get_df_from_blocks(
        vec![header(&types), data_block(&types, vec![("a", vec![Value::Num(NumKind::Int64, 4)])])],
        vec![],
    )
    .unwrap();
    assert_eq!(
        out,
        vec![Column { name: "a".to_string(), data: ColumnData::Num(NumKind::Int64, vec![Some(4)]) }]
    );
}

#[test]
fn blocks_are_appended_in_order() {
    let types = [("a", DbType::String)];
    let out = get_df_from_blocks(
        vec![
            header(&types),
            data_block(&types, vec![("a", vec![s("x")])]),
            data_block(&types, vec![("a", vec![s("y"), Value::Null])]),
        ],
        vec![],
    )
    .unwrap();
    assert_eq!(
        out[0].data,
        ColumnData::Utf8(vec![Some("x".to_string()), Some("y".to_string()), None])
    );
}

#[test]
fn overrides_replace_declared_types() {
    let types = [("flag", DbType::Num(NumKind::UInt8))];
    let out = get_df_from_blocks(
        vec![header(&types), data_block(&types, vec![("flag", vec![Value::Num(NumKind::UInt8, 1)])])],
        vec![("flag".to_string(), ClickhouseType::Bool)],
    )
    .unwrap();
    assert_eq!(out[0].data, ColumnData::Boolean(vec![Some(true)]));
}

#[test]
fn missing_initial_block() {
    assert!(matches!(get_df_from_blocks(vec![], vec![]), Err(Error::MissingInitialBlock)));
}

#[test]
fn unknown_column_from_server() {
    let types = [("a", DbType::String)];
    match get_df_from_blocks(vec![header(&types), data_block(&types, vec![("z", vec![s("x")])])], vec![]) {
        Err(Error::MissingColumnLocal(c)) => assert_eq!(c, "z"),
        r => panic!("unexpected {:?}", r),
    }
}

#[test]
fn rowless_blocks_are_skipped() {
    let types = [("a", DbType::String)];
    let empty_with_unknown = Block {
        rows: 0,
        column_types: vec![],
        column_data: vec![("z".to_string(), vec![])],
    };
    let out = get_df_from_blocks(
        vec![header(&types), empty_with_unknown, data_block(&types, vec![("a", vec![s("x")])])],
        vec![],
    )
    .unwrap();
    assert_eq!(out[0].data, ColumnData::Utf8(vec![Some("x".to_string())]));
}

#[test]
fn unsupported_declared_type() {
    let types = [("d", DbType::Other("Date".to_string()))];
    match get_df_from_blocks(vec![header(&types)], vec![]) {
        Err(Error::UnsupportedClickhouseType(t)) => {
            assert_eq!(t, ClickhouseType::Native(DbType::Other("Date".to_string())))
        },
        r => panic!("unexpected {:?}", r),
    }
}

#[test]
fn columns_of_different_lengths() {
    let types = [("a", DbType::String), ("b", DbType::String)];
    match get_df_from_blocks(
        vec![header(&types), data_block(&types, vec![("a", vec![s("x"), s("y")]), ("b", vec![s("z")])])],
        vec![],
    ) {
        Err(Error::MismatchingLengths(l)) => assert_eq!(l, vec![2, 1]),
        r => panic!("unexpected {:?}", r),
    }
}

#[test]
fn query_type_mismatch() {
    let types = [("a", DbType::String)];
    assert!(matches!(
        get_df_from_blocks(
            vec![header(&types), data_block(&types, vec![("a", vec![Value::Num(NumKind::Int64, 1)])])],
            vec![]
        ),
        Err(Error::MismatchingValueType(_, _))
    ));
}

#[test]
fn http_single_block_is_replayed() {
    let types = [("a", DbType::String)];
    let b = data_block(&types, vec![("a", vec![s("x")])]);
    let out = replay_first(vec![b.clone()]);
    assert_eq!(out.len(), 2);
    assert_eq!(out[0], b);
    assert_eq!(out[1], b);
    assert!(replay_first(vec![]).is_empty());
    let frame = get_df_from_blocks(out, vec![]).unwrap();
    assert_eq!(frame[0].data, ColumnData::Utf8(vec![Some("x".to_string())]));
}

#[test]
fn http_adapter_steps() {
    let types = [("a", DbType::String)];
    let b1 = data_block(&types, vec![("a", vec![s("x")])]);
    let b2 = data_block(&types, vec![("a", vec![s("y")])]);
    let mut adapter = HttpBlockAdapter::new();
    assert_eq!(adapter.on_block(b1.clone()), vec![b1.clone(), b1]);
    assert_eq!(adapter.on_block(b2.clone()), vec![b2]);
}

#[test]
fn http_insertion_fails() {
    assert!(matches!(http_insert(), Err(Error::Http(HttpError::Insertion))));
}

#[test]
fn http_addresses() {
    assert!(is_http_address("http://localhost:8123"));
    assert!(is_http_address("https://db.example.com"));
    assert!(!is_http_address("localhost:9000"));
    assert!(!is_http_address("http:/x"));
}
