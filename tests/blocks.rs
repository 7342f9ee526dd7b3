use polarhouse::{
    Block, ClickhouseTable, ClickhouseType, Column, ColumnData, DbType, Error, NumKind, Value,
    MAX_BLOCK_ROWS,
};

fn table(cols: &[(&str, ClickhouseType)]) -> ClickhouseTable {
    ClickhouseTable {
        name: "t".to_string(),
        types: cols.iter().map(|(n, t)| (n.to_string(), t.clone())).collect(),
    }
}

fn int_column(name: &str, n: usize) -> Column {
    Column {
        name: name.to_string(),
        data: ColumnData::Num(NumKind::UInt32, (0..n).map(|i| Some(i as i128)).collect()),
    }
}

fn all_blocks(table: &ClickhouseTable, df: &Vec<Column>, defaults: Vec<(String, Value)>) -> Vec<Block> {
    let mut assembler = table.blocks_from_df(df, defaults).unwrap();
    let mut out = Vec::new();
    while let Some(b) = assembler.next_block() {
        out.push(b);
    }
    out
}

#[test]
fn large_dataframe_two_blocks() {
    assert_eq!(MAX_BLOCK_ROWS, 200_000);
    let t = table(&[("id", ClickhouseType::Native(DbType::Num(NumKind::UInt32)))]);
    let blocks = all_blocks(&t, &vec![int_column("id", 350_000)], vec![]);
    assert_eq!(blocks.len(), 2);
    assert_eq!(blocks[0].rows, 200_000);
    assert_eq!(blocks[1].rows, 150_000);
    assert_eq!(blocks[0].column_types, blocks[1].column_types);
    assert_eq!(blocks[1].column_data[0].1[0], Value::Num(NumKind::UInt32, 200_000));
    assert_eq!(blocks[1].column_data[0].1.len(), 150_000);
}

#[test]
fn defaults_fill_every_row() {
    let t = table(&[
        ("id", ClickhouseType::Native(DbType::Num(NumKind::UInt32))),
        ("source", ClickhouseType::Native(DbType::String)),
    ]);
    let default = Value::String(b"import".to_vec());
    let blocks = all_blocks(&t, &vec![int_column("id", 250_001)], vec![("source".to_string(), default.clone())]);
    assert_eq!(blocks.len(), 2);
    for b in &blocks {
        assert_eq!(b.column_types.len(), 2);
        assert_eq!(b.column_types[1], ("source".to_string(), DbType::String));
        let (name, values) = &b.column_data[1];
        assert_eq!(name, "source");
        assert_eq!(values.len() as u64, b.rows);
        assert!(values.iter().all(|v| *v == default));
    }
}

#[test]
fn empty_dataframe_gives_no_block() {
    let t = table(&[("id", ClickhouseType::Native(DbType::Num(NumKind::UInt32)))]);
    assert!(all_blocks(&t, &vec![int_column("id", 0)], vec![]).is_empty());
}

#[test]
fn columns_not_in_table() {
    let t = table(&[("id", ClickhouseType::Native(DbType::Num(NumKind::UInt32)))]);
    match t.blocks_from_df(&vec![int_column("id", 1), int_column("x", 1)], vec![]) {
        Err(Error::MismatchingColumns(cols)) => assert_eq!(cols, vec!["x".to_string()]),
        _ => panic!("expected an error"),
    }
}

#[test]
fn table_columns_missing() {
    let t = table(&[
        ("id", ClickhouseType::Native(DbType::Num(NumKind::UInt32))),
        ("y", ClickhouseType::Native(DbType::String)),
    ]);
    match t.blocks_from_df(&vec![int_column("id", 1)], vec![]) {
        Err(Error::MismatchingColumns(cols)) => assert_eq!(cols, vec!["y".to_string()]),
        _ => panic!("expected an error"),
    }
    assert!(matches!(
        t.blocks_from_df(
            &vec![int_column("id", 1)],
            vec![("y".to_string(), Value::Null), ("z".to_string(), Value::Null)]
        ),
        Err(Error::MismatchingColumns(_))
    ));
}

#[test]
fn struct_columns_are_flattened_for_insertion() {
    let t = table(&[
        ("a.b", ClickhouseType::Native(DbType::Num(NumKind::UInt32))),
        ("c", ClickhouseType::Native(DbType::Num(NumKind::UInt32))),
    ]);
    let df = vec![
        Column { name: "a".to_string(), data: ColumnData::Struct(vec![int_column("b", 2)]) },
        int_column("c", 2),
    ];
    let blocks = all_blocks(&t, &df, vec![]);
    assert_eq!(blocks.len(), 1);
    assert_eq!(blocks[0].column_data[0].0, "a.b");
}

#[test]
fn encoding_errors_reach_the_caller() {
    let t = table(&[("id", ClickhouseType::Native(DbType::String))]);
    assert!(matches!(
        t.blocks_from_df(&vec![int_column("id", 1)], vec![]),
        Err(Error::MismatchingSeriesType(_))
    ));
}
