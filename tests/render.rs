use sql::migrate::{migrate, MigrationOptions};
use sql::schema::{Column, Constraint, ForeignKey, GenerationTime, GenerationValue, Generated, Index, IndexKind, Schema, Table};
use sql::types::{Expr, Type};
use sql::util::{quote_identifier, SqlExtension};
use sql::Dialect;

#[test]
fn identifier_is_double_quoted() {
    assert_eq!(quote_identifier("users"), Some("\"users\"".to_string()));
    let mut buf = String::new();
    buf.push_quoted("users");
    assert_eq!(buf, "\"users\"");
}

#[test]
fn identifier_with_quote_is_refused() {
    assert_eq!(quote_identifier("us\"ers"), None);
}

#[test]
fn table_name_with_namespace() {
    let mut buf = String::new();
    buf.push_table_name(&Some("public".to_string()), "users");
    assert_eq!(buf, "\"public\".\"users\"");
    let mut buf = String::new();
    buf.push_table_name(&None, "users");
    assert_eq!(buf, "\"users\"");
}

#[test]
fn quoted_sequence() {
    let mut buf = String::new();
    buf.push_quoted_sequence(&vec!["a".to_string(), "b".to_string()], ", ");
    assert_eq!(buf, "\"a\", \"b\"");
}

#[test]
fn type_names_parse() {
    assert_eq!(Type::from_str("integer").unwrap(), Type::I32);
    assert_eq!(Type::from_str("timestamptz").unwrap(), Type::DateTime);
    assert_eq!(Type::from_str("int8[][]").unwrap(), Type::Array(Box::new(Type::Array(Box::new(Type::I64)))));
    assert_eq!(Type::from_str("polygon").unwrap_err().name, "polygon");
    assert_eq!(Type::from_str("polygon[]").unwrap_err().name, "polygon[]");
}

#[test]
fn type_spelling_by_dialect() {
    let mut buf = String::new();
    Type::Numeric(10, 2).write_sql(&mut buf, Dialect::Postgres);
    assert_eq!(buf, "NUMERIC(10, 2)");
    let mut buf = String::new();
    Type::Numeric(255, 0).write_sql(&mut buf, Dialect::Mysql);
    assert_eq!(buf, "DECIMAL(255, 0)");
    let mut buf = String::new();
    Type::Array(Box::new(Type::Text)).write_sql(&mut buf, Dialect::Postgres);
    assert_eq!(buf, "TEXT[]");
    let mut buf = String::new();
    Type::Boolean.write_sql(&mut buf, Dialect::Sqlite);
    assert_eq!(buf, "INTEGER");
}

#[test]
fn generated_rendering() {
    let mut buf = String::new();
    Generated { time: GenerationTime::ByDefault, value: GenerationValue::Identity }.write_sql(&mut buf, Dialect::Postgres);
    assert_eq!(buf, "GENERATED BY DEFAULT AS IDENTITY");
    let mut buf = String::new();
    Generated { time: GenerationTime::Always, value: GenerationValue::Expr(Expr::Raw("a * 2".to_string())) }
        .write_sql(&mut buf, Dialect::Postgres);
    assert_eq!(buf, "GENERATED ALWAYS AS (a * 2) STORED");
}

#[test]
fn index_rendering() {
    let i = Index {
        name: "users_name_idx".to_string(),
        unique: false,
        schema: Some("public".to_string()),
        table: "users".to_string(),
        columns: vec!["first".to_string(), "last".to_string()],
        kind: IndexKind::Gist,
    };
    let mut buf = String::new();
    i.write_sql(&mut buf, Dialect::Postgres);
    assert_eq!(buf, "CREATE INDEX \"users_name_idx\" ON \"public\".\"users\" USING GIST (\"first\", \"last\")");
    let mut buf = String::new();
    i.write_sql(&mut buf, Dialect::Sqlite);
    assert_eq!(buf, "CREATE INDEX \"users_name_idx\" ON \"public\".\"users\" (\"first\", \"last\")");
}

#[test]
fn table_rendering() {
    let mut id = Column {
        name: "id".to_string(),
        typ: Type::I64,
        nullable: false,
        primary_key: true,
        default: None,
        constraint: None,
        generated: None,
    };
    id.generated = Some(Generated { time: GenerationTime::Always, value: GenerationValue::Identity });
    let owner = Column {
        name: "owner".to_string(),
        typ: Type::I64,
        nullable: true,
        primary_key: false,
        default: Some(Expr::Raw("0".to_string())),
        constraint: Some(Constraint::ForeignKey(ForeignKey { table: "users".to_string(), columns: vec!["id".to_string()] })),
        generated: None,
    };
    let t = Table::new("items").column(id).column(owner).index(Index {
        name: "items_owner_idx".to_string(),
        unique: false,
        schema: None,
        table: "items".to_string(),
        columns: vec!["owner".to_string()],
        kind: IndexKind::default(),
    });
    let mut buf = String::new();
    t.write_sql(&mut buf, Dialect::Postgres);
    assert_eq!(
        buf,
        "CREATE TABLE \"items\" (\"id\" BIGINT NOT NULL PRIMARY KEY GENERATED ALWAYS AS IDENTITY, \"owner\" BIGINT DEFAULT 0 REFERENCES \"users\" (\"id\"));\nCREATE INDEX \"items_owner_idx\" ON \"items\" (\"owner\");"
    );
}

#[test]
fn name_schema_sets_every_namespace() {
    let mut s = Schema { tables: vec![Table::new("a"), Table::new("b").schema("x")] };
    s.name_schema("public");
    assert_eq!(s.tables[0].schema.as_deref(), Some("public"));
    assert_eq!(s.tables[1].schema.as_deref(), Some("public"));
    assert_eq!(s.tables[1].name, "b");
}

#[test]
fn migration_with_quote_in_name_is_not_rendered() {
    let desired = Schema { tables: vec![Table::new("bad\"name")] };
    let m = migrate(Schema::empty(), desired, &MigrationOptions { allow_destructive: false, dialect: Dialect::Postgres }).unwrap();
    assert!(m.render(Dialect::Postgres).is_none());
    let ok = migrate(Schema::empty(), Schema { tables: vec![Table::new("users")] }, &MigrationOptions { allow_destructive: false, dialect: Dialect::Postgres }).unwrap();
    assert_eq!(ok.render(Dialect::Postgres), Some("CREATE TABLE \"users\" ();".to_string()));
}

#[test]
fn rendered_postgres_names_parse_back() {
    let types = vec![
        Type::Boolean,
        Type::I16,
        Type::I32,
        Type::I64,
        Type::Text,
        Type::Bytes,
        Type::Date,
        Type::DateTime,
        Type::Uuid,
        Type::Json,
        Type::Array(Box::new(Type::I32)),
    ];
    for t in types {
        let mut buf = String::new();
        t.write_sql(&mut buf, Dialect::Postgres);
        assert_eq!(Type::from_str(&buf).unwrap(), t);
    }
}
