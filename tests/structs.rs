use polarhouse::{flatten_schema, unflatten, Column, ColumnData, ColumnType, Field, NumKind};

fn strings(name: &str, values: &[&str]) -> Column {
    Column {
        name: name.to_string(),
        data: ColumnData::Utf8(values.iter().map(|v| Some(v.to_string())).collect()),
    }
}

fn structure(name: &str, fields: Vec<Column>) -> Column {
    Column { name: name.to_string(), data: ColumnData::Struct(fields) }
}

fn names(cols: &[Column]) -> Vec<String> {
    cols.iter().map(|c| c.name.clone()).collect()
}

#[test]
fn flatten() {
    let regular = Column {
        name: "col0".to_string(),
        data: ColumnData::Num(NumKind::Int32, vec![Some(1), Some(2)]),
    };
    let level1 = structure("col1", vec![strings("field1", &["v1", "v2"])]);
    let level2 = structure(
        "col2",
        vec![
            structure(
                "field1",
                vec![strings("subfield1", &["v1", "v2"]), strings("subfield2", &["v3", "v4"])],
            ),
            strings("field2", &["v1", "v2"]),
        ],
    );
    let df = vec![level1, regular, level2];
    let df2 = polarhouse::flatten(&df);
    assert_eq!(
        names(&df2),
        vec![
            "col1.field1",
            "col0",
            "col2.field1.subfield1",
            "col2.field1.subfield2",
            "col2.field2",
        ]
    );
    let df3 = unflatten(&df2);
    assert_eq!(df3, df);
}

#[test]
fn flatten_keeps_plain_columns() {
    let df = vec![strings("a", &["x"]), strings("b", &["y"])];
    assert_eq!(polarhouse::flatten(&df), df);
    assert_eq!(unflatten(&df), df);
}

#[test]
fn unflatten_gathers_at_first_field() {
    let cols = vec![strings("s.x", &["1"]), strings("p", &["2"]), strings("s.y", &["3"])];
    let out = unflatten(&cols);
    assert_eq!(names(&out), vec!["s", "p"]);
    assert_eq!(
        out[0],
        structure("s", vec![strings("x", &["1"]), strings("y", &["3"])])
    );
    assert_eq!(out[1], strings("p", &["2"]));
}

#[test]
fn unflatten_nested_names() {
    let cols = vec![strings("a.b.c", &["1"]), strings("a.d", &["2"])];
    let out = unflatten(&cols);
    assert_eq!(
        out,
        vec![structure(
            "a",
            vec![structure("b", vec![strings("c", &["1"])]), strings("d", &["2"])]
        )]
    );
}

#[test]
fn flatten_schema_names_fields() {
    let schema = vec![
        Field { name: "id".to_string(), dtype: ColumnType::Num(NumKind::UInt64) },
        Field {
            name: "addr".to_string(),
            dtype: ColumnType::Struct(vec![
                Field { name: "city".to_string(), dtype: ColumnType::String },
                Field { name: "zip".to_string(), dtype: ColumnType::Num(NumKind::UInt32) },
            ]),
        },
    ];
    let flat = flatten_schema(&schema);
    let got: Vec<(String, ColumnType)> = flat.into_iter().map(|f| (f.name, f.dtype)).collect();
    assert_eq!(
        got,
        vec![
            ("id".to_string(), ColumnType::Num(NumKind::UInt64)),
            ("addr.city".to_string(), ColumnType::String),
            ("addr.zip".to_string(), ColumnType::Num(NumKind::UInt32)),
        ]
    );
}
