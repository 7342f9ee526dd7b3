use polarhouse::{ClickhouseTable, ClickhouseType, ColumnType, DbType, Error, Field, NumKind, TableCreationOptions};

fn heroes() -> ClickhouseTable {
    ClickhouseTable {
        name: "heroes".to_string(),
        types: vec![
            ("name".to_string(), ClickhouseType::Native(DbType::String)),
            ("age".to_string(), ClickhouseType::Native(DbType::Num(NumKind::Int32)).nullable()),
        ],
    }
}

#[test]
fn create_statement() {
    let q = heroes()
        .create_query(&TableCreationOptions {
            primary_keys: vec!["name".to_string()],
            suffix: String::new(),
            if_not_exists: true,
        })
        .unwrap();
    assert_eq!(
        q,
        "CREATE TABLE IF NOT EXISTS `heroes` (\n               `name` String,\n  `age` Nullable(Int32),\n             )\n             ENGINE = MergeTree()\n             PRIMARY KEY(name)\n             "
    );
}

#[test]
fn create_statement_ends_with_suffix() {
    let q = heroes()
        .create_statement(&TableCreationOptions {
            primary_keys: vec![],
            suffix: "ORDER BY name".to_string(),
            if_not_exists: false,
        })
        .unwrap();
    assert!(q.starts_with("CREATE TABLE  `heroes` ("));
    assert!(q.ends_with("PRIMARY KEY()\n             \nORDER BY name"));
}

#[test]
fn column_declarations() {
    assert_eq!(heroes().types_all(), "  `name` String,\n  `age` Nullable(Int32),");
}

#[test]
fn invalid_primary_key() {
    let r = heroes().create_query(&TableCreationOptions {
        primary_keys: vec!["name".to_string(), "power".to_string()],
        suffix: String::new(),
        if_not_exists: false,
    });
    match r {
        Err(Error::InvalidPrimaryKey(k)) => assert_eq!(k, "power"),
        r => panic!("unexpected {:?}", r),
    }
}

#[test]
fn insert_statement() {
    assert_eq!(heroes().insert_query(), "INSERT INTO `heroes` FORMAT native");
}

#[test]
fn create_statement_invalid_key() {
    let r = heroes().create_statement(&TableCreationOptions {
        primary_keys: vec!["power".to_string()],
        suffix: String::new(),
        if_not_exists: false,
    });
    assert!(matches!(r, Err(Error::InvalidPrimaryKey(k)) if k == "power"));
}

#[test]
fn table_from_schema() {
    let schema = vec![
        Field { name: "name".to_string(), dtype: ColumnType::String },
        Field { name: "is_rich".to_string(), dtype: ColumnType::Boolean },
        Field {
            name: "address".to_string(),
            dtype: ColumnType::Struct(vec![
                Field { name: "city".to_string(), dtype: ColumnType::String },
                Field { name: "state".to_string(), dtype: ColumnType::String },
            ]),
        },
    ];
    let nullables = vec!["is_rich".to_string(), "address".to_string()];
    let defaults = vec![("name".to_string(), ClickhouseType::Native(DbType::LowCardinality(Box::new(DbType::String))))];
    let t = ClickhouseTable::from_polars_schema("t", &schema, defaults, &nullables).unwrap();
    assert_eq!(t.name, "t");
    assert_eq!(
        t.types,
        vec![
            ("name".to_string(), ClickhouseType::Native(DbType::LowCardinality(Box::new(DbType::String)))),
            ("is_rich".to_string(), ClickhouseType::Bool.nullable()),
            ("address.city".to_string(), ClickhouseType::Native(DbType::String).nullable()),
            ("address.state".to_string(), ClickhouseType::Native(DbType::String).nullable()),
        ]
    );
}

#[test]
fn table_from_unsupported_schema() {
    let schema = vec![Field { name: "d".to_string(), dtype: ColumnType::Other("Date".to_string()) }];
    assert!(matches!(
        ClickhouseTable::from_polars_schema("t", &schema, vec![], &vec![]),
        Err(Error::UnsupportedPolarsType(ColumnType::Other(_)))
    ));
}
