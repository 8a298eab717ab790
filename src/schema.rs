//! The schema entity model (tables, columns, indexes, constraints, generated columns) and its rendering.
use crate::types::{Expr, Type, type_sql};
use crate::util::{
    all_quotable, copy_str, opt_quotable, opt_view, quotable, quoted, quoted_join, str_eq,
    table_name_sql, views, SqlExtension,
};
use crate::Dialect;
use vstd::prelude::*;

verus! {

/// When a generated column's value is produced.
#[derive(Debug, Clone, Copy, PartialEq, Eq, Structural)]
pub enum GenerationTime {
    Always,
    ByDefault,
}

/// What a generated column holds.
#[derive(Debug)]
pub enum GenerationValue {
    Identity,
    Expr(Expr),
}

/// A generated or identity column.
#[derive(Debug)]
pub struct Generated {
    pub time: GenerationTime,
    pub value: GenerationValue,
}

impl Generated {
    /// Equality of generation specs, by the text of their expressions.
    pub open spec fn same_spec(&self, o: &Generated) -> bool {
        self.time == o.time && match (self.value, o.value) {
            (GenerationValue::Identity, GenerationValue::Identity) => true,
            (GenerationValue::Expr(a), GenerationValue::Expr(b)) => a.text() == b.text(),
            _ => false,
        }
    }

    pub fn same(&self, o: &Generated) -> (r: bool)
        ensures
            r == self.same_spec(o),
    {
        self.time == o.time && match (&self.value, &o.value) {
            (GenerationValue::Identity, GenerationValue::Identity) => true,
            (GenerationValue::Expr(a), GenerationValue::Expr(b)) => a.same(b),
            _ => false,
        }
    }

    pub fn duplicate(&self) -> (r: Generated)
        ensures
            r.same_spec(self),
    {
        Generated {
            time: self.time,
            value: match &self.value {
                GenerationValue::Identity => GenerationValue::Identity,
                GenerationValue::Expr(e) => GenerationValue::Expr(e.duplicate()),
            },
        }
    }
}

pub open spec fn generated_sql(g: Generated) -> Seq<char> {
    "GENERATED "@ + match g.time {
        GenerationTime::Always => "ALWAYS "@,
        GenerationTime::ByDefault => "BY DEFAULT "@,
    } + "AS "@ + match g.value {
        GenerationValue::Identity => "IDENTITY"@,
        GenerationValue::Expr(e) => "("@ + e.text() + ") STORED"@,
    }
}

impl Generated {
    /// Appends this node's SQL text.
    pub fn write_sql(&self, buf: &mut String, dialect: Dialect)
        ensures
            final(buf)@ == old(buf)@ + generated_sql(*self),
    {
        buf.append("GENERATED ");
        match self.time {
            GenerationTime::Always => buf.append("ALWAYS "),
            GenerationTime::ByDefault => buf.append("BY DEFAULT "),
        }
        buf.append("AS ");
        match &self.value {
            GenerationValue::Identity => buf.append("IDENTITY"),
            GenerationValue::Expr(expr) => {
                buf.append("(");
                expr.write_sql(buf, dialect);
                buf.append(") STORED");
            },
        }
        assert(buf@ =~= old(buf)@ + generated_sql(*self));
    }
}

/// The access method of an index.
#[derive(Debug)]
pub enum IndexKind {
    BTree,
    Hash,
    Gist,
    SpGist,
    Brin,
    /// A method name copied verbatim.
    Other(String),
}

impl IndexKind {
    pub fn default() -> (r: IndexKind)
        ensures
            r is BTree,
    {
        IndexKind::BTree
    }

    pub open spec fn same_spec(&self, o: &IndexKind) -> bool {
        match (self, o) {
            (IndexKind::BTree, IndexKind::BTree) => true,
            (IndexKind::Hash, IndexKind::Hash) => true,
            (IndexKind::Gist, IndexKind::Gist) => true,
            (IndexKind::SpGist, IndexKind::SpGist) => true,
            (IndexKind::Brin, IndexKind::Brin) => true,
            (IndexKind::Other(a), IndexKind::Other(b)) => a@ == b@,
            _ => false,
        }
    }

    pub fn same(&self, o: &IndexKind) -> (r: bool)
        ensures
            r == self.same_spec(o),
    {
        match (self, o) {
            (IndexKind::BTree, IndexKind::BTree) => true,
            (IndexKind::Hash, IndexKind::Hash) => true,
            (IndexKind::Gist, IndexKind::Gist) => true,
            (IndexKind::SpGist, IndexKind::SpGist) => true,
            (IndexKind::Brin, IndexKind::Brin) => true,
            (IndexKind::Other(a), IndexKind::Other(b)) => str_eq(a.as_str(), b.as_str()),
            _ => false,
        }
    }

    pub fn duplicate(&self) -> (r: IndexKind)
        ensures
            r.same_spec(self),
    {
        match self {
            IndexKind::BTree => IndexKind::BTree,
            IndexKind::Hash => IndexKind::Hash,
            IndexKind::Gist => IndexKind::Gist,
            IndexKind::SpGist => IndexKind::SpGist,
            IndexKind::Brin => IndexKind::Brin,
            IndexKind::Other(a) => IndexKind::Other(copy_str(a)),
        }
    }
}

/// The ` USING method` clause; the default method and dialects other than
/// Postgres take none.
pub open spec fn using_sql(k: IndexKind, d: Dialect) -> Seq<char> {
    if d != Dialect::Postgres {
        seq![]
    } else {
        match k {
            IndexKind::BTree => seq![],
            IndexKind::Hash => " USING HASH"@,
            IndexKind::Gist => " USING GIST"@,
            IndexKind::SpGist => " USING SPGIST"@,
            IndexKind::Brin => " USING BRIN"@,
            IndexKind::Other(m) => " USING "@ + m@,
        }
    }
}

/// An index on a table.
#[derive(Debug)]
pub struct Index {
    pub name: String,
    pub unique: bool,
    pub schema: Option<String>,
    pub table: String,
    pub columns: Vec<String>,
    pub kind: IndexKind,
}

pub open spec fn index_sql(i: Index, d: Dialect) -> Seq<char> {
    "CREATE "@ + (if i.unique { "UNIQUE "@ } else { seq![] }) + "INDEX "@ + quoted(i.name@)
        + " ON "@ + table_name_sql(opt_view(&i.schema), i.table@) + using_sql(i.kind, d) + " ("@
        + quoted_join(views(i.columns@), ", "@) + ")"@
}

impl Index {
    pub open spec fn same_spec(&self, o: &Index) -> bool {
        &&& self.name@ == o.name@
        &&& self.unique == o.unique
        &&& opt_view(&self.schema) == opt_view(&o.schema)
        &&& self.table@ == o.table@
        &&& views(self.columns@) == views(o.columns@)
        &&& self.kind.same_spec(&o.kind)
    }

    pub fn same(&self, o: &Index) -> (r: bool)
        ensures
            r == self.same_spec(o),
    {
        str_eq(self.name.as_str(), o.name.as_str()) && self.unique == o.unique
            && crate::util::opt_str_eq(&self.schema, &o.schema) && str_eq(
            self.table.as_str(),
            o.table.as_str(),
        ) && crate::util::strings_eq(&self.columns, &o.columns) && self.kind.same(&o.kind)
    }

    pub fn duplicate(&self) -> (r: Index)
        ensures
            r.same_spec(self),
    {
        Index {
            name: copy_str(&self.name),
            unique: self.unique,
            schema: crate::util::copy_opt_str(&self.schema),
            table: copy_str(&self.table),
            columns: crate::util::copy_strs(&self.columns),
            kind: self.kind.duplicate(),
        }
    }
}

pub open spec fn index_renderable(x: Index) -> bool {
    &&& quotable(x.name@)
    &&& opt_quotable(&x.schema)
    &&& quotable(x.table@)
    &&& all_quotable(x.columns@)
}

impl Index {
    /// Appends this node's SQL text.
    pub fn write_sql(&self, buf: &mut String, dialect: Dialect)
        requires
            index_renderable(*self),
        ensures
            final(buf)@ == old(buf)@ + index_sql(*self, dialect),
    {
        buf.append("CREATE ");
        if self.unique {
            buf.append("UNIQUE ");
        }
        buf.append("INDEX ");
        buf.push_quoted(self.name.as_str());
        buf.append(" ON ");
        buf.push_table_name(&self.schema, self.table.as_str());
        if dialect == Dialect::Postgres {
            match &self.kind {
                IndexKind::BTree => {},
                IndexKind::Hash => buf.append(" USING HASH"),
                IndexKind::Gist => buf.append(" USING GIST"),
                IndexKind::SpGist => buf.append(" USING SPGIST"),
                IndexKind::Brin => buf.append(" USING BRIN"),
                IndexKind::Other(kind) => {
                    buf.append(" USING ");
                    buf.append(kind.as_str());
                },
            }
        }
        buf.append(" (");
        buf.push_quoted_sequence(&self.columns, ", ");
        buf.append(")");
        assert(buf@ =~= old(buf)@ + index_sql(*self, dialect));
    }
}

} // verus!

verus! {

/// A foreign key: the referenced table and its columns.
#[derive(Debug)]
pub struct ForeignKey {
    pub table: String,
    pub columns: Vec<String>,
}

/// A constraint attached to a column.
#[derive(Debug)]
pub enum Constraint {
    ForeignKey(ForeignKey),
}

/// The identity of a constraint: for a foreign key, the referenced table and columns.
pub open spec fn constraint_key(c: Constraint) -> (Seq<char>, Seq<Seq<char>>) {
    match c {
        Constraint::ForeignKey(fk) => (fk.table@, views(fk.columns@)),
    }
}

pub open spec fn constraint_renderable(c: Constraint) -> bool {
    match c {
        Constraint::ForeignKey(fk) => quotable(fk.table@) && all_quotable(fk.columns@),
    }
}

/// ` REFERENCES "table" ("col", ...)`.
pub open spec fn references_sql(c: Constraint) -> Seq<char> {
    match c {
        Constraint::ForeignKey(fk) => " REFERENCES "@ + quoted(fk.table@) + " ("@ + quoted_join(
            views(fk.columns@),
            ", "@,
        ) + ")"@,
    }
}

impl Constraint {
    /// The table this constraint refers to.
    pub open spec fn target(&self) -> Seq<char> {
        match self {
            Constraint::ForeignKey(fk) => fk.table@,
        }
    }

    pub fn same(&self, o: &Constraint) -> (r: bool)
        ensures
            r == (constraint_key(*self) == constraint_key(*o)),
    {
        match (self, o) {
            (Constraint::ForeignKey(a), Constraint::ForeignKey(b)) => {
                let r = str_eq(a.table.as_str(), b.table.as_str()) && crate::util::strings_eq(
                    &a.columns,
                    &b.columns,
                );
                r
            },
        }
    }

    pub fn duplicate(&self) -> (r: Constraint)
        ensures
            constraint_key(r) == constraint_key(*self),
    {
        match self {
            Constraint::ForeignKey(fk) => Constraint::ForeignKey(
                ForeignKey {
                    table: copy_str(&fk.table),
                    columns: crate::util::copy_strs(&fk.columns),
                },
            ),
        }
    }

    pub fn write_references(&self, buf: &mut String)
        requires
            constraint_renderable(*self),
        ensures
            final(buf)@ == old(buf)@ + references_sql(*self),
    {
        match self {
            Constraint::ForeignKey(fk) => {
                buf.append(" REFERENCES ");
                buf.push_quoted(fk.table.as_str());
                buf.append(" (");
                buf.push_quoted_sequence(&fk.columns, ", ");
                buf.append(")");
            },
        }
        assert(buf@ =~= old(buf)@ + references_sql(*self));
    }
}

pub open spec fn opt_expr_text(e: Option<Expr>) -> Option<Seq<char>> {
    match e {
        Some(x) => Some(x.text()),
        None => None,
    }
}

pub open spec fn same_opt_generated(a: Option<Generated>, b: Option<Generated>) -> bool {
    match (a, b) {
        (Some(x), Some(y)) => x.same_spec(&y),
        (None, None) => true,
        _ => false,
    }
}

pub open spec fn opt_constraint_key(c: Option<Constraint>) -> Option<(Seq<char>, Seq<Seq<char>>)> {
    match c {
        Some(x) => Some(constraint_key(x)),
        None => None,
    }
}

/// A column of a table.
#[derive(Debug)]
pub struct Column {
    pub name: String,
    pub typ: Type,
    pub nullable: bool,
    pub primary_key: bool,
    pub default: Option<Expr>,
    pub constraint: Option<Constraint>,
    pub generated: Option<Generated>,
}

/// Two columns agree in every attribute.
pub open spec fn same_column(a: Column, b: Column) -> bool {
    &&& a.name@ == b.name@
    &&& a.typ == b.typ
    &&& a.nullable == b.nullable
    &&& a.primary_key == b.primary_key
    &&& opt_expr_text(a.default) == opt_expr_text(b.default)
    &&& opt_constraint_key(a.constraint) == opt_constraint_key(b.constraint)
    &&& same_opt_generated(a.generated, b.generated)
}

pub open spec fn default_part(c: Column) -> Seq<char> {
    match c.default {
        Some(e) => " DEFAULT "@ + e.text(),
        None => seq![],
    }
}

pub open spec fn generated_part(c: Column) -> Seq<char> {
    match c.generated {
        Some(g) => " "@ + generated_sql(g),
        None => seq![],
    }
}

pub open spec fn references_part(c: Column) -> Seq<char> {
    match c.constraint {
        Some(k) => references_sql(k),
        None => seq![],
    }
}

pub open spec fn flags_part(c: Column) -> Seq<char> {
    (if !c.nullable {
        " NOT NULL"@
    } else {
        seq![]
    }) + (if c.primary_key {
        " PRIMARY KEY"@
    } else {
        seq![]
    })
}

pub open spec fn column_sql(c: Column, d: Dialect) -> Seq<char> {
    quoted(c.name@) + " "@ + type_sql(c.typ, d) + flags_part(c) + default_part(c) + generated_part(c) + references_part(c)
}

pub fn copy_opt_expr(e: &Option<Expr>) -> (r: Option<Expr>)
    ensures
        opt_expr_text(r) == opt_expr_text(*e),
{
    match e {
        Some(x) => Some(x.duplicate()),
        None => None,
    }
}

pub fn same_opt_expr(a: &Option<Expr>, b: &Option<Expr>) -> (r: bool)
    ensures
        r == (opt_expr_text(*a) == opt_expr_text(*b)),
{
    match (a, b) {
        (Some(x), Some(y)) => x.same(y),
        (None, None) => true,
        _ => false,
    }
}

pub fn copy_opt_generated(g: &Option<Generated>) -> (r: Option<Generated>)
    ensures
        same_opt_generated(r, *g),
{
    match g {
        Some(x) => Some(x.duplicate()),
        None => None,
    }
}

pub fn same_generated(a: &Option<Generated>, b: &Option<Generated>) -> (r: bool)
    ensures
        r == same_opt_generated(*a, *b),
{
    match (a, b) {
        (Some(x), Some(y)) => x.same(y),
        (None, None) => true,
        _ => false,
    }
}

pub fn copy_opt_constraint(c: &Option<Constraint>) -> (r: Option<Constraint>)
    ensures
        opt_constraint_key(r) == opt_constraint_key(*c),
{
    match c {
        Some(x) => Some(x.duplicate()),
        None => None,
    }
}

pub fn same_opt_constraint(a: &Option<Constraint>, b: &Option<Constraint>) -> (r: bool)
    ensures
        r == (opt_constraint_key(*a) == opt_constraint_key(*b)),
{
    match (a, b) {
        (Some(x), Some(y)) => x.same(y),
        (None, None) => true,
        _ => false,
    }
}

impl Column {
    pub fn duplicate(&self) -> (r: Column)
        ensures
            same_column(r, *self),
    {
        Column {
            name: copy_str(&self.name),
            typ: self.typ.duplicate(),
            nullable: self.nullable,
            primary_key: self.primary_key,
            default: copy_opt_expr(&self.default),
            constraint: copy_opt_constraint(&self.constraint),
            generated: copy_opt_generated(&self.generated),
        }
    }
}

pub open spec fn column_renderable(x: Column) -> bool {
    &&& quotable(x.name@)
    &&& match x.constraint {
        Some(k) => constraint_renderable(k),
        None => true,
    }
}

impl Column {
    /// Appends this node's SQL text.
    pub fn write_sql(&self, buf: &mut String, dialect: Dialect)
        requires
            column_renderable(*self),
        ensures
            final(buf)@ == old(buf)@ + column_sql(*self, dialect),
    {
        buf.push_quoted(self.name.as_str());
        buf.append(" ");
        self.typ.write_sql(buf, dialect);
        let ghost s1 = buf@;
        self.write_flags(buf);
        let ghost s2 = buf@;
        self.write_default(buf, dialect);
        let ghost s3 = buf@;
        self.write_generated(buf, dialect);
        let ghost s4 = buf@;
        if let Some(k) = &self.constraint {
            k.write_references(buf);
        }
        proof {
            let head = quoted(self.name@) + " "@ + type_sql(self.typ, dialect);
            assert(s1 =~= old(buf)@ + head);
            assert(buf@ =~= s4 + references_part(*self));
            assert(buf@ =~= old(buf)@ + head + flags_part(*self) + default_part(*self)
                + generated_part(*self) + references_part(*self));
        }
    }
}

impl Column {
    fn write_flags(&self, buf: &mut String)
        ensures
            final(buf)@ == old(buf)@ + flags_part(*self),
    {
        if !self.nullable {
            buf.append(" NOT NULL");
        }
        if self.primary_key {
            buf.append(" PRIMARY KEY");
        }
        assert(buf@ =~= old(buf)@ + flags_part(*self));
    }

    fn write_default(&self, buf: &mut String, dialect: Dialect)
        ensures
            final(buf)@ == old(buf)@ + default_part(*self),
    {
        if let Some(e) = &self.default {
            buf.append(" DEFAULT ");
            e.write_sql(buf, dialect);
        }
        assert(buf@ =~= old(buf)@ + default_part(*self));
    }

    fn write_generated(&self, buf: &mut String, dialect: Dialect)
        ensures
            final(buf)@ == old(buf)@ + generated_part(*self),
    {
        if let Some(g) = &self.generated {
            buf.append(" ");
            g.write_sql(buf, dialect);
        }
        assert(buf@ =~= old(buf)@ + generated_part(*self));
    }
}

} // verus!

verus! {

/// A table: its namespace, name, columns in order, and indexes.
#[derive(Debug)]
pub struct Table {
    pub schema: Option<String>,
    pub name: String,
    pub columns: Vec<Column>,
    pub indexes: Vec<Index>,
}

pub open spec fn same_columns(a: Seq<Column>, b: Seq<Column>) -> bool {
    a.len() == b.len() && forall|i: int| 0 <= i < a.len() ==> same_column(#[trigger] a[i], b[i])
}

pub open spec fn same_indexes(a: Seq<Index>, b: Seq<Index>) -> bool {
    a.len() == b.len() && forall|i: int| 0 <= i < a.len() ==> (#[trigger] a[i]).same_spec(&b[i])
}

/// Two tables agree in namespace, name, columns and indexes.
pub open spec fn same_table(a: Table, b: Table) -> bool {
    &&& opt_view(&a.schema) == opt_view(&b.schema)
    &&& a.name@ == b.name@
    &&& same_columns(a.columns@, b.columns@)
    &&& same_indexes(a.indexes@, b.indexes@)
}

/// Column definitions, separated by commas.
pub open spec fn columns_sql(s: Seq<Column>, d: Dialect) -> Seq<char>
    decreases s.len(),
{
    if s.len() == 0 {
        seq![]
    } else if s.len() == 1 {
        column_sql(s[0], d)
    } else {
        columns_sql(s.drop_last(), d) + ", "@ + column_sql(s.last(), d)
    }
}

/// Index statements, each on a line of its own.
pub open spec fn indexes_sql(s: Seq<Index>, d: Dialect) -> Seq<char>
    decreases s.len(),
{
    if s.len() == 0 {
        seq![]
    } else {
        indexes_sql(s.drop_last(), d) + "\n"@ + index_sql(s.last(), d) + ";"@
    }
}

pub open spec fn columns_renderable(s: Seq<Column>) -> bool {
    forall|i: int| 0 <= i < s.len() ==> column_renderable(#[trigger] s[i])
}

pub open spec fn indexes_renderable(s: Seq<Index>) -> bool {
    forall|i: int| 0 <= i < s.len() ==> index_renderable(#[trigger] s[i])
}

pub open spec fn table_sql(t: Table, d: Dialect) -> Seq<char> {
    "CREATE TABLE "@ + table_name_sql(opt_view(&t.schema), t.name@) + " ("@ + columns_sql(
        t.columns@,
        d,
    ) + ");"@ + indexes_sql(t.indexes@, d)
}

pub fn write_columns(buf: &mut String, items: &Vec<Column>, dialect: Dialect)
    requires
        columns_renderable(items@),
    ensures
        final(buf)@ == old(buf)@ + columns_sql(items@, dialect),
{
    let mut i: usize = 0;
    while i < items.len()
        invariant
            i <= items@.len(),
            columns_renderable(items@),
            buf@ == old(buf)@ + columns_sql(items@.subrange(0, i as int), dialect),
        decreases items@.len() - i,
    {
        if i > 0 {
            buf.append(", ");
        }
        
        items[i].write_sql(buf, dialect);
        proof {
            let pre = items@.subrange(0, i as int);
            let post = items@.subrange(0, i + 1);
            assert(post.drop_last() =~= pre);
        }
        i = i + 1;
    }
    assert(items@.subrange(0, items@.len() as int) =~= items@);
}

pub fn write_indexes(buf: &mut String, items: &Vec<Index>, dialect: Dialect)
    requires
        indexes_renderable(items@),
    ensures
        final(buf)@ == old(buf)@ + indexes_sql(items@, dialect),
{
    let mut i: usize = 0;
    while i < items.len()
        invariant
            i <= items@.len(),
            indexes_renderable(items@),
            buf@ == old(buf)@ + indexes_sql(items@.subrange(0, i as int), dialect),
        decreases items@.len() - i,
    {
        
        buf.append("\n");
        items[i].write_sql(buf, dialect);
        buf.append(";");
        proof {
            let pre = items@.subrange(0, i as int);
            let post = items@.subrange(0, i + 1);
            assert(post.drop_last() =~= pre);
        }
        i = i + 1;
    }
    assert(items@.subrange(0, items@.len() as int) =~= items@);
}

pub fn copy_columns(a: &Vec<Column>) -> (r: Vec<Column>)
    ensures
        same_columns(r@, a@),
{
    let mut r: Vec<Column> = Vec::new();
    let mut i: usize = 0;
    while i < a.len()
        invariant
            i <= a@.len(),
            r@.len() == i,
            forall|j: int| 0 <= j < i ==> same_column(#[trigger] r@[j], a@[j]),
        decreases a@.len() - i,
    {
        r.push(a[i].duplicate());
        i = i + 1;
    }
    r
}

pub fn copy_indexes(a: &Vec<Index>) -> (r: Vec<Index>)
    ensures
        same_indexes(r@, a@),
{
    let mut r: Vec<Index> = Vec::new();
    let mut i: usize = 0;
    while i < a.len()
        invariant
            i <= a@.len(),
            r@.len() == i,
            forall|j: int| 0 <= j < i ==> (#[trigger] r@[j]).same_spec(&a@[j]),
        decreases a@.len() - i,
    {
        r.push(a[i].duplicate());
        i = i + 1;
    }
    r
}

impl Table {
    /// A table named `name`, with no namespace, columns or indexes.
    pub fn new(name: &str) -> (r: Table)
        ensures
            r.schema is None,
            r.name@ == name@,
            r.columns@.len() == 0,
            r.indexes@.len() == 0,
    {
        Table { schema: None, name: name.to_string(), columns: vec![], indexes: vec![] }
    }

    /// The table with `column` added last.
    pub fn column(self, column: Column) -> (r: Self)
        ensures
            r == (Table { columns: r.columns, ..self }),
            r.columns@ == self.columns@.push(column),
    {
        let mut t = self;
        t.columns.push(column);
        t
    }

    /// The table with `index` added last.
    pub fn index(self, index: Index) -> (r: Self)
        ensures
            r == (Table { indexes: r.indexes, ..self }),
            r.indexes@ == self.indexes@.push(index),
    {
        let mut t = self;
        t.indexes.push(index);
        t
    }

    /// The table placed in namespace `schema`.
    pub fn schema(self, schema: &str) -> (r: Self)
        ensures
            r == (Table { schema: r.schema, ..self }),
            opt_view(&r.schema) == Some(schema@),
    {
        let mut t = self;
        t.schema = Some(schema.to_string());
        t
    }

    pub fn duplicate(&self) -> (r: Table)
        ensures
            same_table(r, *self),
    {
        Table {
            schema: crate::util::copy_opt_str(&self.schema),
            name: copy_str(&self.name),
            columns: copy_columns(&self.columns),
            indexes: copy_indexes(&self.indexes),
        }
    }
}

pub open spec fn table_renderable(x: Table) -> bool {
    &&& opt_quotable(&x.schema)
    &&& quotable(x.name@)
    &&& columns_renderable(x.columns@)
    &&& indexes_renderable(x.indexes@)
}

impl Table {
    /// Appends this node's SQL text.
    pub fn write_sql(&self, buf: &mut String, dialect: Dialect)
        requires
            table_renderable(*self),
        ensures
            final(buf)@ == old(buf)@ + table_sql(*self, dialect),
    {
        buf.append("CREATE TABLE ");
        buf.push_table_name(&self.schema, self.name.as_str());
        buf.append(" (");
        write_columns(buf, &self.columns, dialect);
        buf.append(");");
        write_indexes(buf, &self.indexes, dialect);
        assert(buf@ =~= old(buf)@ + table_sql(*self, dialect));
    }
}

/// A database schema: its tables in order.
#[derive(Debug)]
pub struct Schema {
    pub tables: Vec<Table>,
}

impl Schema {
    /// The schema with no tables.
    pub fn empty() -> (r: Schema)
        ensures
            r.tables@.len() == 0,
    {
        Schema { tables: Vec::new() }
    }

    /// Places every table in namespace `schema`.
    pub fn name_schema(&mut self, schema: &str)
        ensures
            final(self).tables@.len() == old(self).tables@.len(),
            forall|i: int|
                0 <= i < old(self).tables@.len() ==> {
                    let t = #[trigger] final(self).tables@[i];
                    let u = old(self).tables@[i];
                    &&& opt_view(&t.schema) == Some(schema@)
                    &&& t.name == u.name
                    &&& t.columns == u.columns
                    &&& t.indexes == u.indexes
                },
    {
        let mut i: usize = 0;
        while i < self.tables.len()
            invariant
                i <= self.tables@.len(),
                self.tables@.len() == old(self).tables@.len(),
                forall|j: int|
                    0 <= j < old(self).tables@.len() ==> {
                        let t = #[trigger] self.tables@[j];
                        let u = old(self).tables@[j];
                        &&& j < i ==> opt_view(&t.schema) == Some(schema@)
                        &&& j >= i ==> t.schema == u.schema
                        &&& t.name == u.name
                        &&& t.columns == u.columns
                        &&& t.indexes == u.indexes
                    },
            decreases self.tables@.len() - i,
        {
            self.tables[i].schema = Some(schema.to_string());
            i = i + 1;
        }
    }
}

} // verus!

verus! {

impl Constraint {
    pub fn is_renderable(&self) -> (r: bool)
        ensures
            r == constraint_renderable(*self),
    {
        match self {
            Constraint::ForeignKey(fk) => !crate::util::contains_char(fk.table.as_str(), '"')
                && crate::util::all_can_quote(&fk.columns),
        }
    }
}

impl Column {
    pub fn is_renderable(&self) -> (r: bool)
        ensures
            r == column_renderable(*self),
    {
        !crate::util::contains_char(self.name.as_str(), '"') && match &self.constraint {
            Some(k) => k.is_renderable(),
            None => true,
        }
    }
}

impl Index {
    pub fn is_renderable(&self) -> (r: bool)
        ensures
            r == index_renderable(*self),
    {
        !crate::util::contains_char(self.name.as_str(), '"') && crate::util::opt_can_quote(&self.schema)
            && !crate::util::contains_char(self.table.as_str(), '"') && crate::util::all_can_quote(
            &self.columns,
        )
    }
}

impl Table {
    pub fn is_renderable(&self) -> (r: bool)
        ensures
            r == table_renderable(*self),
    {
        if !crate::util::opt_can_quote(&self.schema) || crate::util::contains_char(self.name.as_str(), '"') {
            return false;
        }
        let mut i: usize = 0;
        while i < self.columns.len()
            invariant
                i <= self.columns@.len(),
                forall|j: int| 0 <= j < i ==> column_renderable(#[trigger] self.columns@[j]),
            decreases self.columns@.len() - i,
        {
            if !self.columns[i].is_renderable() {
                return false;
            }
            i = i + 1;
        }
        let mut i: usize = 0;
        while i < self.indexes.len()
            invariant
                i <= self.indexes@.len(),
                forall|j: int| 0 <= j < i ==> index_renderable(#[trigger] self.indexes@[j]),
            decreases self.indexes@.len() - i,
        {
            if !self.indexes[i].is_renderable() {
                return false;
            }
            i = i + 1;
        }
        true
    }
}

} // verus!
