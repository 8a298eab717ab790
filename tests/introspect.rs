use sql::introspect::{index_kind_of, parse_generated, schema_from_rows, ColumnRow, ForeignKey, Index, IntrospectError};
use sql::schema::{Column, Constraint, GenerationTime, GenerationValue, IndexKind};
use sql::types::{Expr, Type};

fn row(table: &str, column: &str, data_type: &str) -> ColumnRow {
    ColumnRow {
        table_name: table.to_string(),
        column_name: column.to_string(),
        ordinal_position: 1,
        is_nullable: "NO".to_string(),
        data_type: data_type.to_string(),
        numeric_precision: None,
        numeric_scale: None,
        inner_type: None,
        primary_key: false,
        generation_time: None,
        generation_expression: None,
        identity_generation: None,
    }
}

#[test]
fn test_numeric() {
    let c = ColumnRow {
        table_name: "foo".to_string(),
        column_name: "bar".to_string(),
        ordinal_position: 1,
        is_nullable: "NO".to_string(),
        data_type: "numeric".to_string(),
        numeric_precision: Some(10),
        numeric_scale: Some(2),
        inner_type: None,
        primary_key: false,
        generation_time: None,
        generation_expression: None,
        identity_generation: None,
    };
    let column: Column = c.try_into().unwrap();
    assert_eq!(column.typ, Type::Numeric(10, 2));
}

#[test]
fn test_integer() {
    let c = ColumnRow {
        table_name: "foo".to_string(),
        column_name: "bar".to_string(),
        ordinal_position: 1,
        is_nullable: "NO".to_string(),
        data_type: "integer".to_string(),
        numeric_precision: Some(32),
        numeric_scale: Some(0),
        inner_type: None,
        primary_key: false,
        generation_time: None,
        generation_expression: None,
        identity_generation: None,
    };
    let column: Column = c.try_into().unwrap();
    assert_eq!(column.typ, Type::I32);
}

#[test]
fn row_with_array_type() {
    let mut c = row("foo", "tags", "ARRAY");
    c.inner_type = Some("text".to_string());
    c.is_nullable = "YES".to_string();
    let column = c.try_into().unwrap();
    assert_eq!(column.typ, Type::Array(Box::new(Type::Text)));
    assert!(column.nullable);
    assert_eq!(column.name, "tags");
}

#[test]
fn row_with_array_and_no_inner_type_fails() {
    let c = row("foo", "tags", "ARRAY");
    assert!(c.try_into().is_err());
}

#[test]
fn row_with_unknown_type_fails() {
    let c = row("foo", "bar", "geometry");
    let e = c.try_into().unwrap_err();
    assert_eq!(e.name, "geometry");
}

#[test]
fn row_with_oversized_numeric_fails() {
    let mut c = row("foo", "bar", "numeric");
    c.numeric_precision = Some(1000);
    c.numeric_scale = Some(2);
    assert!(c.try_into().is_err());
}

#[test]
fn generated_identity() {
    let g = parse_generated(Some("ALWAYS".to_string()), None, Some("YES".to_string())).unwrap();
    assert_eq!(g.time, GenerationTime::Always);
    assert!(matches!(g.value, GenerationValue::Identity));
}

#[test]
fn generated_expression() {
    let g = parse_generated(Some("BY DEFAULT".to_string()), Some("a + b".to_string()), Some("NO".to_string())).unwrap();
    assert_eq!(g.time, GenerationTime::ByDefault);
    match g.value {
        GenerationValue::Expr(Expr::Raw(s)) => assert_eq!(s, "a + b"),
        _ => panic!("expected an expression"),
    }
}

#[test]
fn generated_absent_or_unknown() {
    assert!(parse_generated(None, Some("x".to_string()), None).is_none());
    assert!(parse_generated(Some("SOMETIMES".to_string()), Some("x".to_string()), None).is_none());
    assert!(parse_generated(Some("ALWAYS".to_string()), None, None).is_none());
}

#[test]
fn index_kinds() {
    assert!(matches!(index_kind_of("btree"), IndexKind::BTree));
    assert!(matches!(index_kind_of("gist"), IndexKind::Gist));
    match index_kind_of("ivfflat") {
        IndexKind::Other(s) => assert_eq!(s, "ivfflat"),
        _ => panic!("expected another kind"),
    }
}

#[test]
fn rows_assemble_into_tables() {
    let rows = vec![row("a", "id", "bigint"), row("a", "b_id", "bigint"), row("b", "id", "bigint")];
    let fks = vec![ForeignKey {
        table_schema: "public".to_string(),
        constraint_name: "a_b_id_fkey".to_string(),
        table_name: "a".to_string(),
        column_name: "b_id".to_string(),
        foreign_table_schema: "public".to_string(),
        foreign_table_name: "b".to_string(),
        foreign_column_name: "id".to_string(),
    }];
    let indexes = vec![Index {
        schema: "public".to_string(),
        table: "b".to_string(),
        name: "b_id_idx".to_string(),
        statement: "CREATE INDEX b_id_idx ON public.b USING hash (id)".to_string(),
        unique: false,
        kind: "hash".to_string(),
        columns: vec!["id".to_string()],
    }];
    let names = vec!["a".to_string(), "b".to_string(), "c".to_string()];
    let s = schema_from_rows("public", rows, fks, indexes, names).unwrap();
    assert_eq!(s.tables.len(), 3);
    assert_eq!(s.tables[0].name, "a");
    assert_eq!(s.tables[0].columns.len(), 2);
    assert_eq!(s.tables[1].name, "b");
    assert_eq!(s.tables[1].columns.len(), 1);
    assert_eq!(s.tables[2].name, "c");
    assert_eq!(s.tables[2].columns.len(), 0);
    for t in &s.tables {
        assert_eq!(t.schema.as_deref(), Some("public"));
    }
    match &s.tables[0].columns[1].constraint {
        Some(Constraint::ForeignKey(fk)) => {
            assert_eq!(fk.table, "b");
            assert_eq!(fk.columns, vec!["id".to_string()]);
        }
        None => panic!("expected a foreign key"),
    }
    assert!(s.tables[0].columns[0].constraint.is_none());
    assert_eq!(s.tables[1].indexes.len(), 1);
    assert!(matches!(s.tables[1].indexes[0].kind, IndexKind::Hash));
}

#[test]
fn rows_with_unknown_foreign_key_column_fail() {
    let rows = vec![row("a", "id", "bigint")];
    let fks = vec![ForeignKey {
        table_schema: "public".to_string(),
        constraint_name: "x".to_string(),
        table_name: "a".to_string(),
        column_name: "missing".to_string(),
        foreign_table_schema: "public".to_string(),
        foreign_table_name: "b".to_string(),
        foreign_column_name: "id".to_string(),
    }];
    let r = schema_from_rows("public", rows, fks, vec![], vec![]);
    assert!(matches!(r, Err(IntrospectError::UnknownReference)));
}

#[test]
fn rows_with_unknown_type_fail_to_assemble() {
    let rows = vec![row("a", "id", "bigint"), row("a", "shape", "geometry")];
    let r = schema_from_rows("public", rows, vec![], vec![], vec![]);
    assert!(matches!(r, Err(IntrospectError::Parse(_))));
}

#[test]
fn unsorted_rows_group_by_table_name() {
    let rows = vec![row("a", "x", "integer"), row("b", "y", "integer"), row("a", "z", "text")];
    let s = schema_from_rows("public", rows, vec![], vec![], vec![]).unwrap();
    assert_eq!(s.tables.len(), 2);
    assert_eq!(s.tables[0].name, "a");
    assert_eq!(s.tables[0].columns.len(), 2);
    assert_eq!(s.tables[0].columns[0].name, "x");
    assert_eq!(s.tables[0].columns[1].name, "z");
    assert_eq!(s.tables[0].columns[1].typ, Type::Text);
    assert_eq!(s.tables[1].name, "b");
}

#[test]
fn index_on_table_without_columns() {
    let indexes = vec![Index {
        schema: "public".to_string(),
        table: "empty".to_string(),
        name: "empty_idx".to_string(),
        statement: String::new(),
        unique: true,
        kind: "btree".to_string(),
        columns: vec![],
    }];
    let s = schema_from_rows("public", vec![], vec![], indexes, vec!["empty".to_string()]).unwrap();
    assert_eq!(s.tables.len(), 1);
    assert_eq!(s.tables[0].indexes.len(), 1);
    assert!(s.tables[0].indexes[0].unique);
}

#[test]
fn index_on_unknown_table_fails() {
    let indexes = vec![Index {
        schema: "public".to_string(),
        table: "nowhere".to_string(),
        name: "i".to_string(),
        statement: String::new(),
        unique: false,
        kind: "btree".to_string(),
        columns: vec![],
    }];
    let r = schema_from_rows("public", vec![row("a", "id", "bigint")], vec![], indexes, vec![]);
    assert!(matches!(r, Err(IntrospectError::UnknownReference)));
}

#[test]
fn array_error_names_inner_type() {
    let mut c = row("foo", "tags", "ARRAY");
    c.inner_type = Some("polygon".to_string());
    assert_eq!(c.try_into().unwrap_err().name, "polygon");
}
