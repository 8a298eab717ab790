use sql::migrate::{is_well_formed, migrate, MigrateError, MigrationOptions};
use sql::operation::{AlterAction, Operation};
use sql::schema::{Column, Constraint, ForeignKey, Index, IndexKind, Schema, Table};
use sql::types::Type;
use sql::Dialect;

fn col(name: &str, typ: Type, nullable: bool) -> Column {
    Column {
        name: name.to_string(),
        typ,
        nullable,
        primary_key: false,
        default: None,
        constraint: None,
        generated: None,
    }
}

fn fk_col(name: &str, table: &str, column: &str) -> Column {
    let mut c = col(name, Type::I64, false);
    c.constraint = Some(Constraint::ForeignKey(ForeignKey {
        table: table.to_string(),
        columns: vec![column.to_string()],
    }));
    c
}

fn accounts() -> Table {
    let mut id = col("id", Type::I64, false);
    id.primary_key = true;
    Table::new("accounts").column(id).column(col("name", Type::Text, true))
}

fn opts(allow_destructive: bool) -> MigrationOptions {
    MigrationOptions { allow_destructive, dialect: Dialect::Postgres }
}

fn orders_schema() -> Schema {
    Schema {
        tables: vec![
            Table::new("orders").column(col("id", Type::I64, false)),
            Table::new("order_items")
                .column(col("id", Type::I64, false))
                .column(fk_col("order_id", "orders", "id")),
        ],
    }
}

fn table_name(op: &Operation) -> String {
    match op {
        Operation::CreateTable(t) => t.name.clone(),
        Operation::DropTable(_, n) => n.clone(),
        _ => panic!("expected a table operation"),
    }
}

#[test]
fn self_diff_is_empty() {
    let s = orders_schema();
    let t = orders_schema();
    assert!(is_well_formed(&s));
    let m = migrate(s, t, &opts(false)).unwrap();
    assert_eq!(m.operations.len(), 0);
}

#[test]
fn added_column_and_unique_index() {
    let current = Schema { tables: vec![accounts()] };
    let desired = Schema {
        tables: vec![accounts().column(col("email", Type::Text, false)).index(Index {
            name: "accounts_email_idx".to_string(),
            unique: true,
            schema: None,
            table: "accounts".to_string(),
            columns: vec!["email".to_string()],
            kind: IndexKind::BTree,
        })],
    };
    let m = migrate(current, desired, &opts(false)).unwrap();
    assert_eq!(m.operations.len(), 2);
    match &m.operations[0] {
        Operation::AlterTable(None, name, acts) => {
            assert_eq!(name, "accounts");
            assert_eq!(acts.len(), 1);
            match &acts[0] {
                AlterAction::AddColumn(c) => assert_eq!(c.name, "email"),
                _ => panic!("expected an added column"),
            }
        }
        _ => panic!("expected ALTER TABLE"),
    }
    match &m.operations[1] {
        Operation::CreateIndex(i) => assert_eq!(i.name, "accounts_email_idx"),
        _ => panic!("expected CREATE INDEX"),
    }
    assert_eq!(
        m.operations[0].to_sql(Dialect::Postgres),
        "ALTER TABLE \"accounts\" ADD COLUMN \"email\" TEXT NOT NULL;"
    );
    assert_eq!(
        m.operations[1].to_sql(Dialect::Postgres),
        "CREATE UNIQUE INDEX \"accounts_email_idx\" ON \"accounts\" (\"email\");"
    );
    assert_eq!(
        m.to_sql(Dialect::Postgres),
        "ALTER TABLE \"accounts\" ADD COLUMN \"email\" TEXT NOT NULL;\nCREATE UNIQUE INDEX \"accounts_email_idx\" ON \"accounts\" (\"email\");"
    );
}

#[test]
fn referencing_table_dropped_first() {
    let m = migrate(orders_schema(), Schema::empty(), &opts(true)).unwrap();
    assert_eq!(m.operations.len(), 2);
    assert!(matches!(m.operations[0], Operation::DropTable(..)));
    assert_eq!(table_name(&m.operations[0]), "order_items");
    assert_eq!(table_name(&m.operations[1]), "orders");
    assert_eq!(m.operations[1].to_sql(Dialect::Postgres), "DROP TABLE \"orders\";");
}

#[test]
fn referenced_table_created_first() {
    let m = migrate(Schema::empty(), orders_schema(), &opts(false)).unwrap();
    assert_eq!(m.operations.len(), 2);
    assert!(matches!(m.operations[0], Operation::CreateTable(_)));
    assert_eq!(table_name(&m.operations[0]), "orders");
    assert_eq!(table_name(&m.operations[1]), "order_items");
}

#[test]
fn from_empty_creates_every_table() {
    let desired = Schema {
        tables: vec![
            Table::new("b").column(fk_col("a_id", "a", "id")),
            Table::new("a").column(col("id", Type::I64, false)),
            Table::new("c").column(col("id", Type::I32, true)),
        ],
    };
    let m = migrate(Schema::empty(), desired, &opts(false)).unwrap();
    let names: Vec<String> = m.operations.iter().map(table_name).collect();
    assert_eq!(names, vec!["a".to_string(), "b".to_string(), "c".to_string()]);
}

#[test]
fn drop_table_rejected_without_permission() {
    let r = migrate(orders_schema(), Schema::empty(), &opts(false));
    assert!(matches!(r, Err(MigrateError::DestructiveChangeRejected)));
}

#[test]
fn drop_column_rejected_without_permission() {
    let current = Schema { tables: vec![accounts()] };
    let mut id = col("id", Type::I64, false);
    id.primary_key = true;
    let desired = Schema { tables: vec![Table::new("accounts").column(id)] };
    let r = migrate(current, desired, &opts(false));
    assert_eq!(r.unwrap_err(), MigrateError::DestructiveChangeRejected);
}

#[test]
fn drop_column_allowed() {
    let current = Schema { tables: vec![accounts()] };
    let mut id = col("id", Type::I64, false);
    id.primary_key = true;
    let desired = Schema { tables: vec![Table::new("accounts").column(id)] };
    let m = migrate(current, desired, &opts(true)).unwrap();
    assert_eq!(m.operations.len(), 1);
    assert_eq!(m.operations[0].to_sql(Dialect::Postgres), "ALTER TABLE \"accounts\" DROP COLUMN \"name\";");
}

#[test]
fn cycle_among_new_tables() {
    let desired = Schema {
        tables: vec![
            Table::new("a").column(col("id", Type::I64, false)).column(fk_col("b_id", "b", "id")),
            Table::new("b").column(col("id", Type::I64, false)).column(fk_col("a_id", "a", "id")),
        ],
    };
    let r = migrate(Schema::empty(), desired, &opts(false));
    assert_eq!(r.unwrap_err(), MigrateError::DependencyCycle);
}

#[test]
fn self_reference_is_no_cycle() {
    let desired = Schema {
        tables: vec![Table::new("node").column(col("id", Type::I64, false)).column(fk_col("parent", "node", "id"))],
    };
    let m = migrate(Schema::empty(), desired, &opts(false)).unwrap();
    assert_eq!(m.operations.len(), 1);
}

#[test]
fn unknown_reference_rejected() {
    let desired = Schema { tables: vec![Table::new("a").column(fk_col("b_id", "b", "id"))] };
    let r = migrate(Schema::empty(), desired, &opts(false));
    assert_eq!(r.unwrap_err(), MigrateError::UnknownReference);
}

#[test]
fn unknown_reference_column_rejected() {
    let desired = Schema {
        tables: vec![
            Table::new("b").column(col("id", Type::I64, false)),
            Table::new("a").column(fk_col("b_id", "b", "missing")),
        ],
    };
    let r = migrate(Schema::empty(), desired, &opts(false));
    assert_eq!(r.unwrap_err(), MigrateError::UnknownReference);
}

#[test]
fn column_changes_in_order() {
    let current = Schema {
        tables: vec![
            Table::new("b").column(col("id", Type::I64, false)),
            Table::new("t").column(fk_col("x", "b", "id")).column(col("y", Type::I32, true)),
        ],
    };
    let mut x = col("x", Type::Text, false);
    x.constraint = None;
    let desired = Schema {
        tables: vec![
            Table::new("b").column(col("id", Type::I64, false)),
            Table::new("t").column(x).column(col("y", Type::I32, false)).column(col("z", Type::Boolean, true)),
        ],
    };
    let m = migrate(current, desired, &opts(false)).unwrap();
    assert_eq!(m.operations.len(), 1);
    assert_eq!(
        m.operations[0].to_sql(Dialect::Postgres),
        "ALTER TABLE \"t\" DROP CONSTRAINT \"t_x_fkey\", ALTER COLUMN \"x\" TYPE TEXT, ALTER COLUMN \"y\" SET NOT NULL, ADD COLUMN \"z\" BOOLEAN;"
    );
}

#[test]
fn changed_index_is_recreated() {
    let idx = |unique: bool| Index {
        name: "t_a_idx".to_string(),
        unique,
        schema: None,
        table: "t".to_string(),
        columns: vec!["a".to_string()],
        kind: IndexKind::BTree,
    };
    let current = Schema { tables: vec![Table::new("t").column(col("a", Type::I32, false)).index(idx(false))] };
    let desired = Schema { tables: vec![Table::new("t").column(col("a", Type::I32, false)).index(idx(true))] };
    let m = migrate(current, desired, &opts(false)).unwrap();
    assert_eq!(m.operations.len(), 2);
    assert_eq!(m.operations[0].to_sql(Dialect::Postgres), "DROP INDEX \"t_a_idx\";");
    assert_eq!(m.operations[1].to_sql(Dialect::Postgres), "CREATE UNIQUE INDEX \"t_a_idx\" ON \"t\" (\"a\");");
}

#[test]
fn duplicate_table_is_not_well_formed() {
    let s = Schema { tables: vec![Table::new("a"), Table::new("a")] };
    assert!(!is_well_formed(&s));
    let t = Schema { tables: vec![Table::new("a"), Table::new("a").schema("other")] };
    assert!(is_well_formed(&t));
}

#[test]
fn migrate_to_matches_migrate() {
    let m = orders_schema().migrate_to(orders_schema(), &opts(false)).unwrap();
    assert!(m.operations.is_empty());
}

#[test]
fn independent_tables_created_by_name() {
    let desired = Schema {
        tables: vec![
            Table::new("carts").column(col("id", Type::I64, false)),
            Table::new("accounts").column(col("id", Type::I64, false)),
            Table::new("books").column(col("id", Type::I64, false)),
        ],
    };
    let m = migrate(Schema::empty(), desired, &opts(false)).unwrap();
    let names: Vec<String> = m.operations.iter().map(table_name).collect();
    assert_eq!(names, vec!["accounts".to_string(), "books".to_string(), "carts".to_string()]);
}

#[test]
fn alters_ordered_by_table_name() {
    let current = Schema {
        tables: vec![
            Table::new("zebra").column(col("id", Type::I64, false)),
            Table::new("apple").column(col("id", Type::I64, false)),
        ],
    };
    let desired = Schema {
        tables: vec![
            Table::new("zebra").column(col("id", Type::I64, true)),
            Table::new("apple").column(col("id", Type::I64, true)),
        ],
    };
    let m = migrate(current, desired, &opts(false)).unwrap();
    assert_eq!(m.operations.len(), 2);
    assert_eq!(m.operations[0].to_sql(Dialect::Postgres), "ALTER TABLE \"apple\" ALTER COLUMN \"id\" DROP NOT NULL;");
    assert_eq!(m.operations[1].to_sql(Dialect::Postgres), "ALTER TABLE \"zebra\" ALTER COLUMN \"id\" DROP NOT NULL;");
}

#[test]
fn type_and_nullability_change_on_one_column() {
    let current = Schema { tables: vec![Table::new("t").column(col("a", Type::I32, true))] };
    let desired = Schema { tables: vec![Table::new("t").column(col("a", Type::I64, false))] };
    let m = migrate(current, desired, &opts(false)).unwrap();
    assert_eq!(m.operations.len(), 1);
    assert_eq!(
        m.operations[0].to_sql(Dialect::Postgres),
        "ALTER TABLE \"t\" ALTER COLUMN \"a\" TYPE BIGINT, ALTER COLUMN \"a\" SET NOT NULL;"
    );
}
