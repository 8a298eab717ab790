//! DDL operations, migrations, and their rendering.
use crate::schema::{
    column_renderable, column_sql, constraint_renderable, generated_sql, index_renderable,
    index_sql, references_sql, table_renderable, table_sql, Column, Constraint, Generated, Index,
    Table,
};
use crate::types::{type_sql, Expr, Type};
use crate::util::{opt_quotable, opt_view, push_char, quotable, quoted, table_name_sql, SqlExtension};
use crate::Dialect;
use vstd::prelude::*;

verus! {

/// One change inside an `ALTER TABLE` statement.
#[derive(Debug)]
pub enum AlterAction {
    AddColumn(Column),
    DropColumn(String),
    AlterColumnType(String, Type),
    /// The column and whether it becomes nullable.
    AlterColumnNullability(String, bool),
    /// The column and its new default and generation spec.
    AlterColumnDefault(String, Option<Expr>, Option<Generated>),
    /// The column that holds the constraint, and the constraint.
    AddConstraint(String, Constraint),
    DropConstraint(String, Constraint),
}

/// An atomic DDL action.
#[derive(Debug)]
pub enum Operation {
    CreateTable(Table),
    /// Namespace and name of the table.
    DropTable(Option<String>, String),
    CreateIndex(Index),
    /// Namespace and name of the index.
    DropIndex(Option<String>, String),
    /// Namespace and name of the table, and its changes in order.
    AlterTable(Option<String>, String, Vec<AlterAction>),
}

/// An ordered sequence of operations.
#[derive(Debug)]
pub struct Migration {
    pub operations: Vec<Operation>,
}

/// The name a foreign key on `column` of `table` gets by default.
pub open spec fn fk_name(table: Seq<char>, column: Seq<char>) -> Seq<char> {
    table + seq!['_'] + column + "_fkey"@
}

pub open spec fn default_change_sql(d: Option<Expr>, g: Option<Generated>) -> Seq<char> {
    match (d, g) {
        (Some(e), _) => " SET DEFAULT "@ + e.text(),
        (None, Some(g)) => " ADD "@ + generated_sql(g),
        (None, None) => " DROP DEFAULT"@,
    }
}

pub open spec fn action_sql(a: AlterAction, table: Seq<char>, d: Dialect) -> Seq<char> {
    match a {
        AlterAction::AddColumn(c) => "ADD COLUMN "@ + column_sql(c, d),
        AlterAction::DropColumn(n) => "DROP COLUMN "@ + quoted(n@),
        AlterAction::AlterColumnType(n, t) => "ALTER COLUMN "@ + quoted(n@) + " TYPE "@ + type_sql(t, d),
        AlterAction::AlterColumnNullability(n, nullable) => "ALTER COLUMN "@ + quoted(n@) + if nullable {
            " DROP NOT NULL"@
        } else {
            " SET NOT NULL"@
        },
        AlterAction::AlterColumnDefault(n, e, g) => "ALTER COLUMN "@ + quoted(n@) + default_change_sql(e, g),
        AlterAction::AddConstraint(n, k) => "ADD FOREIGN KEY ("@ + quoted(n@) + ")"@ + references_sql(k),
        AlterAction::DropConstraint(n, k) => "DROP CONSTRAINT "@ + quoted(fk_name(table, n@)),
    }
}

pub open spec fn action_renderable(a: AlterAction, table: Seq<char>) -> bool {
    match a {
        AlterAction::AddColumn(c) => column_renderable(c),
        AlterAction::DropColumn(n) => quotable(n@),
        AlterAction::AlterColumnType(n, _) => quotable(n@),
        AlterAction::AlterColumnNullability(n, _) => quotable(n@),
        AlterAction::AlterColumnDefault(n, _, _) => quotable(n@),
        AlterAction::AddConstraint(n, k) => quotable(n@) && constraint_renderable(k),
        AlterAction::DropConstraint(n, _) => quotable(fk_name(table, n@)),
    }
}

pub open spec fn actions_sql(s: Seq<AlterAction>, table: Seq<char>, d: Dialect) -> Seq<char>
    decreases s.len(),
{
    if s.len() == 0 {
        seq![]
    } else if s.len() == 1 {
        action_sql(s[0], table, d)
    } else {
        actions_sql(s.drop_last(), table, d) + ", "@ + action_sql(s.last(), table, d)
    }
}

pub open spec fn operation_sql(o: Operation, d: Dialect) -> Seq<char> {
    match o {
        Operation::CreateTable(t) => table_sql(t, d),
        Operation::DropTable(s, n) => "DROP TABLE "@ + table_name_sql(opt_view(&s), n@) + ";"@,
        Operation::CreateIndex(i) => index_sql(i, d) + ";"@,
        Operation::DropIndex(s, n) => "DROP INDEX "@ + table_name_sql(opt_view(&s), n@) + ";"@,
        Operation::AlterTable(s, n, acts) => "ALTER TABLE "@ + table_name_sql(opt_view(&s), n@) + " "@
            + actions_sql(acts@, n@, d) + ";"@,
    }
}

pub open spec fn operation_renderable(o: Operation) -> bool {
    match o {
        Operation::CreateTable(t) => table_renderable(t),
        Operation::DropTable(s, n) => opt_quotable(&s) && quotable(n@),
        Operation::CreateIndex(i) => index_renderable(i),
        Operation::DropIndex(s, n) => opt_quotable(&s) && quotable(n@),
        Operation::AlterTable(s, n, acts) => opt_quotable(&s) && quotable(n@) && forall|i: int|
            0 <= i < acts@.len() ==> action_renderable(#[trigger] acts@[i], n@),
    }
}

/// The statements of each operation, one per line.
pub open spec fn migration_sql(s: Seq<Operation>, d: Dialect) -> Seq<char>
    decreases s.len(),
{
    if s.len() == 0 {
        seq![]
    } else if s.len() == 1 {
        operation_sql(s[0], d)
    } else {
        migration_sql(s.drop_last(), d) + seq!['\n'] + operation_sql(s.last(), d)
    }
}

impl AlterAction {
    /// Appends this change, for the table named `table`.
    pub fn write_sql(&self, buf: &mut String, table: &str, dialect: Dialect)
        requires
            action_renderable(*self, table@),
        ensures
            final(buf)@ == old(buf)@ + action_sql(*self, table@, dialect),
    {
        match self {
            AlterAction::AddColumn(c) => {
                buf.append("ADD COLUMN ");
                c.write_sql(buf, dialect);
            },
            AlterAction::DropColumn(n) => {
                buf.append("DROP COLUMN ");
                buf.push_quoted(n.as_str());
            },
            AlterAction::AlterColumnType(n, t) => {
                buf.append("ALTER COLUMN ");
                buf.push_quoted(n.as_str());
                buf.append(" TYPE ");
                t.write_sql(buf, dialect);
            },
            AlterAction::AlterColumnNullability(n, nullable) => {
                buf.append("ALTER COLUMN ");
                buf.push_quoted(n.as_str());
                if *nullable {
                    buf.append(" DROP NOT NULL");
                } else {
                    buf.append(" SET NOT NULL");
                }
            },
            AlterAction::AlterColumnDefault(n, e, g) => {
                buf.append("ALTER COLUMN ");
                buf.push_quoted(n.as_str());
                match (e, g) {
                    (Some(e), _) => {
                        buf.append(" SET DEFAULT ");
                        e.write_sql(buf, dialect);
                    },
                    (None, Some(g)) => {
                        buf.append(" ADD ");
                        g.write_sql(buf, dialect);
                    },
                    (None, None) => buf.append(" DROP DEFAULT"),
                }
            },
            AlterAction::AddConstraint(n, k) => {
                buf.append("ADD FOREIGN KEY (");
                buf.push_quoted(n.as_str());
                buf.append(")");
                k.write_references(buf);
            },
            AlterAction::DropConstraint(n, _) => {
                buf.append("DROP CONSTRAINT ");
                let mut name = String::new();
                name.append(table);
                push_char(&mut name, '_');
                name.append(n.as_str());
                name.append("_fkey");
                assert(name@ =~= fk_name(table@, n@));
                buf.push_quoted(name.as_str());
            },
        }
        assert(buf@ =~= old(buf)@ + action_sql(*self, table@, dialect));
    }
}

fn write_actions(buf: &mut String, items: &Vec<AlterAction>, table: &str, dialect: Dialect)
    requires
        forall|i: int| 0 <= i < items@.len() ==> action_renderable(#[trigger] items@[i], table@),
    ensures
        final(buf)@ == old(buf)@ + actions_sql(items@, table@, dialect),
{
    let mut i: usize = 0;
    while i < items.len()
        invariant
            i <= items@.len(),
            forall|i: int| 0 <= i < items@.len() ==> action_renderable(#[trigger] items@[i], table@),
            buf@ == old(buf)@ + actions_sql(items@.subrange(0, i as int), table@, dialect),
        decreases items@.len() - i,
    {
        if i > 0 {
            buf.append(", ");
        }
        items[i].write_sql(buf, table, dialect);
        proof {
            let pre = items@.subrange(0, i as int);
            let post = items@.subrange(0, i + 1);
            assert(post.drop_last() =~= pre);
        }
        i = i + 1;
    }
    assert(items@.subrange(0, items@.len() as int) =~= items@);
}

impl Operation {
    /// Appends the statements of this operation.
    pub fn write_sql(&self, buf: &mut String, dialect: Dialect)
        requires
            operation_renderable(*self),
        ensures
            final(buf)@ == old(buf)@ + operation_sql(*self, dialect),
    {
        match self {
            Operation::CreateTable(t) => t.write_sql(buf, dialect),
            Operation::DropTable(s, n) => {
                buf.append("DROP TABLE ");
                buf.push_table_name(s, n.as_str());
                buf.append(";");
            },
            Operation::CreateIndex(i) => {
                i.write_sql(buf, dialect);
                buf.append(";");
            },
            Operation::DropIndex(s, n) => {
                buf.append("DROP INDEX ");
                buf.push_table_name(s, n.as_str());
                buf.append(";");
            },
            Operation::AlterTable(s, n, acts) => {
                buf.append("ALTER TABLE ");
                buf.push_table_name(s, n.as_str());
                buf.append(" ");
                write_actions(buf, acts, n.as_str(), dialect);
                buf.append(";");
            },
        }
        assert(buf@ =~= old(buf)@ + operation_sql(*self, dialect));
    }

    /// The statements of this operation as text.
    pub fn to_sql(&self, dialect: Dialect) -> (r: String)
        requires
            operation_renderable(*self),
        ensures
            r@ == operation_sql(*self, dialect),
    {
        let mut buf = String::new();
        self.write_sql(&mut buf, dialect);
        assert(buf@ =~= operation_sql(*self, dialect));
        buf
    }
}

impl Migration {
    /// The statements of every operation, in order, one operation per line.
    pub fn to_sql(&self, dialect: Dialect) -> (r: String)
        requires
            forall|i: int| 0 <= i < self.operations@.len() ==> operation_renderable(#[trigger] self.operations@[i]),
        ensures
            r@ == migration_sql(self.operations@, dialect),
    {
        let mut buf = String::new();
        let mut i: usize = 0;
        while i < self.operations.len()
            invariant
                i <= self.operations@.len(),
                forall|i: int| 0 <= i < self.operations@.len() ==> operation_renderable(#[trigger] self.operations@[i]),
                buf@ == migration_sql(self.operations@.subrange(0, i as int), dialect),
            decreases self.operations@.len() - i,
        {
            if i > 0 {
                push_char(&mut buf, '\n');
            }
            self.operations[i].write_sql(&mut buf, dialect);
            proof {
                let pre = self.operations@.subrange(0, i as int);
                let post = self.operations@.subrange(0, i + 1);
                assert(post.drop_last() =~= pre);
                if i == 0 {
                    assert(buf@ =~= migration_sql(post, dialect));
                }
            }
            i = i + 1;
        }
        assert(self.operations@.subrange(0, self.operations@.len() as int) =~= self.operations@);
        buf
    }
}

} // verus!

verus! {

impl AlterAction {
    pub fn is_renderable(&self, table: &str) -> (r: bool)
        ensures
            r == action_renderable(*self, table@),
    {
        match self {
            AlterAction::AddColumn(c) => c.is_renderable(),
            AlterAction::DropColumn(n) => !crate::util::contains_char(n.as_str(), '"'),
            AlterAction::AlterColumnType(n, _) => !crate::util::contains_char(n.as_str(), '"'),
            AlterAction::AlterColumnNullability(n, _) => !crate::util::contains_char(n.as_str(), '"'),
            AlterAction::AlterColumnDefault(n, _, _) => !crate::util::contains_char(n.as_str(), '"'),
            AlterAction::AddConstraint(n, k) => !crate::util::contains_char(n.as_str(), '"') && k.is_renderable(),
            AlterAction::DropConstraint(n, _) => {
                let mut name = String::new();
                name.append(table);
                push_char(&mut name, '_');
                name.append(n.as_str());
                name.append("_fkey");
                assert(name@ =~= fk_name(table@, n@));
                !crate::util::contains_char(name.as_str(), '"')
            },
        }
    }
}

impl Operation {
    /// Whether every identifier of this operation can be quoted.
    pub fn is_renderable(&self) -> (r: bool)
        ensures
            r == operation_renderable(*self),
    {
        match self {
            Operation::CreateTable(t) => t.is_renderable(),
            Operation::DropTable(s, n) => crate::util::opt_can_quote(s) && !crate::util::contains_char(n.as_str(), '"'),
            Operation::CreateIndex(i) => i.is_renderable(),
            Operation::DropIndex(s, n) => crate::util::opt_can_quote(s) && !crate::util::contains_char(n.as_str(), '"'),
            Operation::AlterTable(s, n, acts) => crate::util::opt_can_quote(s) && !crate::util::contains_char(
                n.as_str(),
                '"',
            ) && actions_renderable(acts, n.as_str()),
        }
    }
}

fn actions_renderable(acts: &Vec<AlterAction>, table: &str) -> (r: bool)
    ensures
        r == forall|j: int| 0 <= j < acts@.len() ==> action_renderable(#[trigger] acts@[j], table@),
{
    let mut i: usize = 0;
    while i < acts.len()
        invariant
            i <= acts@.len(),
            forall|j: int| 0 <= j < i ==> action_renderable(#[trigger] acts@[j], table@),
        decreases acts@.len() - i,
    {
        if !acts[i].is_renderable(table) {
            return false;
        }
        i = i + 1;
    }
    true
}

impl Migration {
    /// The statements of every operation, one operation per line, or `None`
    /// when some identifier holds a double quote and cannot be quoted safely.
    pub fn render(&self, dialect: Dialect) -> (r: Option<String>)
        ensures
            r is Some <==> forall|i: int|
                0 <= i < self.operations@.len() ==> operation_renderable(#[trigger] self.operations@[i]),
            r matches Some(s) ==> s@ == migration_sql(self.operations@, dialect),
    {
        let mut i: usize = 0;
        while i < self.operations.len()
            invariant
                i <= self.operations@.len(),
                forall|j: int| 0 <= j < i ==> operation_renderable(#[trigger] self.operations@[j]),
            decreases self.operations@.len() - i,
        {
            if !self.operations[i].is_renderable() {
                return None;
            }
            i = i + 1;
        }
        Some(self.to_sql(dialect))
    }
}

} // verus!
