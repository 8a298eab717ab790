//! Catalog rows of a live database and their assembly into a schema.
use crate::schema::{Column, Constraint, GenerationTime, GenerationValue, Generated, IndexKind, Table, Schema};
use crate::types::{type_of_name, Expr, ParseError, Type};
use crate::util::{opt_view, str_eq, views};
use vstd::prelude::*;

verus! {

/// A row of column metadata from a database catalog.
#[derive(Debug)]
pub struct ColumnRow {
    pub table_name: String,
    pub column_name: String,
    pub ordinal_position: i32,
    pub is_nullable: String,
    pub data_type: String,
    pub numeric_precision: Option<i32>,
    pub numeric_scale: Option<i32>,
    pub inner_type: Option<String>,
    pub primary_key: bool,
    pub generation_time: Option<String>,
    pub generation_expression: Option<String>,
    pub identity_generation: Option<String>,
}

/// A row of foreign-key metadata: one referencing column and the column it references.
#[derive(Debug)]
pub struct ForeignKey {
    pub table_schema: String,
    pub constraint_name: String,
    pub table_name: String,
    pub column_name: String,
    pub foreign_table_schema: String,
    pub foreign_table_name: String,
    pub foreign_column_name: String,
}

/// A row of index metadata.
#[derive(Debug)]
pub struct Index {
    pub schema: String,
    pub table: String,
    pub name: String,
    /// Text of the index definition.
    pub statement: String,
    pub unique: bool,
    pub kind: String,
    pub columns: Vec<String>,
}

/// A row of routine metadata.
#[derive(Debug)]
pub struct Function {
    pub routine_schema: String,
    pub routine_name: String,
    pub routine_type: String,
    pub data_type: Option<String>,
    pub routine_definition: Option<String>,
}

/// A row of trigger metadata.
#[derive(Debug)]
pub struct Trigger {
    pub trigger_schema: String,
    pub trigger_name: String,
    pub event_manipulation: String,
    pub event_object_table: String,
    pub action_timing: String,
    pub action_statement: String,
}

/// The generation time that a catalog spells `t`.
pub open spec fn generation_time_of(t: Seq<char>) -> Option<GenerationTime> {
    if t == "ALWAYS"@ {
        Some(GenerationTime::Always)
    } else if t == "BY DEFAULT"@ {
        Some(GenerationTime::ByDefault)
    } else {
        None
    }
}

/// `g` is the generation spec that the catalog values describe: a known time,
/// and an identity when `identity` is `YES`, else the expression.
pub open spec fn generated_from(
    time: Option<Seq<char>>,
    expr: Option<Seq<char>>,
    identity: Option<Seq<char>>,
    g: Option<Generated>,
) -> bool {
    let is_identity = identity == Some("YES"@);
    match time {
        None => g is None,
        Some(t) => match generation_time_of(t) {
            None => g is None,
            Some(gt) => if is_identity {
                g matches Some(x) && x.time == gt && x.value is Identity
            } else {
                match expr {
                    Some(e) => g matches Some(x) && x.time == gt && (x.value matches GenerationValue::Expr(
                        v,
                    ) && v.text() == e),
                    None => g is None,
                }
            },
        },
    }
}

/// Reads the generation spec of a column from catalog values.
pub fn parse_generated(time: Option<String>, expr: Option<String>, identity: Option<String>) -> (r: Option<Generated>)
    ensures
        generated_from(opt_view(&time), opt_view(&expr), opt_view(&identity), r),
{
    let time = match time {
        Some(t) => t,
        None => return None,
    };
    let time = if str_eq(time.as_str(), "ALWAYS") {
        GenerationTime::Always
    } else if str_eq(time.as_str(), "BY DEFAULT") {
        GenerationTime::ByDefault
    } else {
        return None;
    };
    let is_identity = match &identity {
        Some(i) => str_eq(i.as_str(), "YES"),
        None => false,
    };
    let value = if is_identity {
        GenerationValue::Identity
    } else if let Some(expr) = expr {
        GenerationValue::Expr(Expr::Raw(expr))
    } else {
        return None;
    };
    Some(Generated { time, value })
}

/// The type that a catalog row describes: an array of its inner type, a numeric
/// with its precision and scale when both are given and fit in a byte, or the
/// type its name stands for.
pub open spec fn row_type(row: ColumnRow) -> Option<Type> {
    if row.data_type@ == "ARRAY"@ {
        match row.inner_type {
            Some(s) => match type_of_name(s@) {
                Some(t) => Some(Type::Array(Box::new(t))),
                None => None,
            },
            None => None,
        }
    } else if row.data_type@ == "numeric"@ && row.numeric_precision is Some && row.numeric_scale is Some {
        let p = row.numeric_precision->Some_0;
        let s = row.numeric_scale->Some_0;
        if 0 <= p <= 255 && 0 <= s <= 255 {
            Some(Type::Numeric(p as u8, s as u8))
        } else {
            None
        }
    } else {
        type_of_name(row.data_type@)
    }
}

/// The name that a failed conversion reports: the inner type of an array,
/// else the data type.
pub open spec fn row_error_name(row: ColumnRow) -> Seq<char> {
    if row.data_type@ == "ARRAY"@ && row.inner_type is Some {
        row.inner_type->Some_0@
    } else {
        row.data_type@
    }
}

/// The column that a catalog row describes.
pub open spec fn row_column(row: ColumnRow, c: Column) -> bool {
    &&& row_column_base(row, c)
    &&& c.constraint is None
}

/// The column that a catalog row describes, whatever its constraint.
pub open spec fn row_column_base(row: ColumnRow, c: Column) -> bool {
    &&& row_type(row) == Some(c.typ)
    &&& c.name@ == row.column_name@
    &&& c.nullable == (row.is_nullable@ == "YES"@)
    &&& c.primary_key == row.primary_key
    &&& c.default is None
    &&& generated_from(
        opt_view(&row.generation_time),
        opt_view(&row.generation_expression),
        opt_view(&row.identity_generation),
        c.generated,
    )
}

impl ColumnRow {
    /// The column this row describes; fails when its type is unknown.
    pub fn try_into(self) -> (r: Result<Column, ParseError>)
        ensures
            r is Ok <==> row_type(self) is Some,
            r matches Ok(c) ==> row_column(self, c),
            r matches Err(e) ==> e.name@ == row_error_name(self),
    {
        let ghost row = self;
        let nullable = str_eq(self.is_nullable.as_str(), "YES");
        let typ = if str_eq(self.data_type.as_str(), "ARRAY") {
            match &self.inner_type {
                Some(inner) => match Type::from_str(inner.as_str()) {
                    Ok(t) => Type::Array(Box::new(t)),
                    Err(e) => return Err(e),
                },
                None => return Err(ParseError { name: self.data_type }),
            }
        } else if str_eq(self.data_type.as_str(), "numeric") && self.numeric_precision.is_some()
            && self.numeric_scale.is_some() {
            let p = self.numeric_precision.unwrap();
            let s = self.numeric_scale.unwrap();
            if 0 <= p && p <= 255 && 0 <= s && s <= 255 {
                Type::Numeric(p as u8, s as u8)
            } else {
                return Err(ParseError { name: self.data_type });
            }
        } else {
            match Type::from_str(self.data_type.as_str()) {
                Ok(t) => t,
                Err(e) => return Err(e),
            }
        };
        let generated = parse_generated(
            self.generation_time,
            self.generation_expression,
            self.identity_generation,
        );
        Ok(
            Column {
                name: self.column_name,
                typ,
                nullable,
                primary_key: self.primary_key,
                default: None,
                constraint: None,
                generated,
            },
        )
    }
}

} // verus!

verus! {

/// Why a schema could not be assembled from catalog rows.
#[derive(Debug)]
pub enum IntrospectError {
    /// A column's type is unknown.
    Parse(ParseError),
    /// A foreign key or index names a table or column that no row describes.
    UnknownReference,
}

/// `r` is the index method that a catalog spells `k`; an unknown name is kept as it is.
pub open spec fn kind_named(r: IndexKind, k: Seq<char>) -> bool {
    if k == "btree"@ {
        r is BTree
    } else if k == "hash"@ {
        r is Hash
    } else if k == "gist"@ {
        r is Gist
    } else if k == "spgist"@ {
        r is SpGist
    } else if k == "brin"@ {
        r is Brin
    } else {
        r matches IndexKind::Other(s) && s@ == k
    }
}

/// The index method that a catalog spells `k`.
pub fn index_kind_of(k: &str) -> (r: IndexKind)
    ensures
        kind_named(r, k@),
{
    if str_eq(k, "btree") {
        IndexKind::BTree
    } else if str_eq(k, "hash") {
        IndexKind::Hash
    } else if str_eq(k, "gist") {
        IndexKind::Gist
    } else if str_eq(k, "spgist") {
        IndexKind::SpGist
    } else if str_eq(k, "brin") {
        IndexKind::Brin
    } else {
        IndexKind::Other(k.to_string())
    }
}

} // verus!

verus! {

/// The rows of table `n`, in order.
pub open spec fn rows_named(rows: Seq<ColumnRow>, n: Seq<char>) -> Seq<ColumnRow>
    decreases rows.len(),
{
    if rows.len() == 0 {
        seq![]
    } else {
        rows_named(rows.drop_last(), n) + if rows.last().table_name@ == n {
            seq![rows.last()]
        } else {
            seq![]
        }
    }
}

/// The index rows of table `n`, in order.
pub open spec fn indexes_named(ixs: Seq<Index>, n: Seq<char>) -> Seq<Index>
    decreases ixs.len(),
{
    if ixs.len() == 0 {
        seq![]
    } else {
        indexes_named(ixs.drop_last(), n) + if ixs.last().table@ == n {
            seq![ixs.last()]
        } else {
            seq![]
        }
    }
}

/// The last foreign-key row on column `c` of table `t`.
pub open spec fn fk_for(fks: Seq<ForeignKey>, t: Seq<char>, c: Seq<char>) -> Option<ForeignKey>
    decreases fks.len(),
{
    if fks.len() == 0 {
        None
    } else if fks.last().table_name@ == t && fks.last().column_name@ == c {
        Some(fks.last())
    } else {
        fk_for(fks.drop_last(), t, c)
    }
}

/// A column's constraint is the foreign key that the row `f` describes, or none.
pub open spec fn constraint_from(k: Option<Constraint>, f: Option<ForeignKey>) -> bool {
    match f {
        None => k is None,
        Some(fk) => k matches Some(Constraint::ForeignKey(x)) && x.table@ == fk.foreign_table_name@ && views(
            x.columns@,
        ) == seq![fk.foreign_column_name@],
    }
}

/// The index that an index row describes.
pub open spec fn index_from(ix: Index, i: crate::schema::Index) -> bool {
    &&& i.name@ == ix.name@
    &&& i.unique == ix.unique
    &&& opt_view(&i.schema) == Some(ix.schema@)
    &&& i.table@ == ix.table@
    &&& views(i.columns@) == views(ix.columns@)
    &&& kind_named(i.kind, ix.kind@)
}

/// Some column row or some listed name names table `n`.
pub open spec fn listed(rows: Seq<ColumnRow>, names: Seq<String>, n: Seq<char>) -> bool {
    rows_named(rows, n).len() > 0 || exists|j: int| 0 <= j < names.len() && (#[trigger] names[j])@ == n
}

pub open spec fn has_table_named(ts: Seq<Table>, name: Seq<char>) -> bool {
    exists|t: int| 0 <= t < ts.len() && (#[trigger] ts[t]).name@ == name
}

/// Table `t` in namespace `ns` holds, in order, the columns of its rows with
/// their foreign keys, and the indexes of its index rows.
pub open spec fn table_from(
    rows: Seq<ColumnRow>,
    fks: Seq<ForeignKey>,
    ixs: Seq<Index>,
    ns: Seq<char>,
    t: Table,
) -> bool {
    &&& opt_view(&t.schema) == Some(ns)
    &&& t.columns@.len() == rows_named(rows, t.name@).len()
    &&& forall|x: int|
        0 <= x < t.columns@.len() ==> row_column_base(rows_named(rows, t.name@)[x], #[trigger] t.columns@[x])
            && constraint_from(t.columns@[x].constraint, fk_for(fks, t.name@, t.columns@[x].name@))
    &&& t.indexes@.len() == indexes_named(ixs, t.name@).len()
    &&& forall|x: int| 0 <= x < t.indexes@.len() ==> index_from(indexes_named(ixs, t.name@)[x], #[trigger] t.indexes@[x])
}

/// One table for each name that a column row or the list gives, and no other;
/// each made from its rows.
pub open spec fn assembled(
    rows: Seq<ColumnRow>,
    fks: Seq<ForeignKey>,
    ixs: Seq<Index>,
    names: Seq<String>,
    ns: Seq<char>,
    ts: Seq<Table>,
) -> bool {
    &&& forall|t: int| 0 <= t < ts.len() ==> table_from(rows, fks, ixs, ns, #[trigger] ts[t]) && listed(rows, names, ts[t].name@)
    &&& forall|t1: int, t2: int|
        0 <= t1 < ts.len() && 0 <= t2 < ts.len() && t1 != t2 ==> (#[trigger] ts[t1]).name@ != (#[trigger] ts[t2]).name@
    &&& forall|n: Seq<char>| #[trigger] listed(rows, names, n) ==> has_table_named(ts, n)
}

/// Some row of table `fk.table_name` has the column `fk.column_name`.
pub open spec fn fk_known(rows: Seq<ColumnRow>, fk: ForeignKey) -> bool {
    exists|x: int|
        0 <= x < rows_named(rows, fk.table_name@).len() && (#[trigger] rows_named(rows, fk.table_name@)[x]).column_name@
            == fk.column_name@
}

/// A foreign-key row names a column that no row gives, or an index row names a
/// table that neither a row nor the list gives.
pub open spec fn unknown_row_reference(
    rows: Seq<ColumnRow>,
    fks: Seq<ForeignKey>,
    ixs: Seq<Index>,
    names: Seq<String>,
) -> bool {
    (exists|k: int| 0 <= k < fks.len() && !fk_known(rows, #[trigger] fks[k])) || (exists|k: int|
        0 <= k < ixs.len() && !listed(rows, names, (#[trigger] ixs[k]).table@))
}

fn find_table_named(ts: &Vec<Table>, name: &str) -> (r: Option<usize>)
    ensures
        r matches Some(t) ==> t < ts@.len() && ts@[t as int].name@ == name@,
        r is None ==> !has_table_named(ts@, name@),
{
    let mut t: usize = 0;
    while t < ts.len()
        invariant
            t <= ts@.len(),
            forall|k: int| 0 <= k < t ==> (#[trigger] ts@[k]).name@ != name@,
        decreases ts@.len() - t,
    {
        if str_eq(ts[t].name.as_str(), name) {
            return Some(t);
        }
        t = t + 1;
    }
    None
}

/// Sets the foreign key `fk` on every column named `name`; says whether there was one.
fn set_foreign_key(cols: &mut Vec<Column>, name: &str, fk: &ForeignKey) -> (r: bool)
    ensures
        final(cols)@.len() == old(cols)@.len(),
        r == crate::migrate::has_column_named(old(cols)@, name@),
        forall|x: int|
            0 <= x < old(cols)@.len() ==> {
                let o = old(cols)@[x];
                let c = #[trigger] final(cols)@[x];
                if o.name@ == name@ {
                    c == Column { constraint: c.constraint, ..o } && constraint_from(c.constraint, Some(*fk))
                } else {
                    c == o
                }
            },
{
    let mut found = false;
    let mut x: usize = 0;
    while x < cols.len()
        invariant
            x <= cols@.len(),
            cols@.len() == old(cols)@.len(),
            found == exists|y: int| 0 <= y < x && (#[trigger] old(cols)@[y]).name@ == name@,
            forall|y: int|
                0 <= y < old(cols)@.len() ==> {
                    let o = old(cols)@[y];
                    let c = #[trigger] cols@[y];
                    if y < x && o.name@ == name@ {
                        c == Column { constraint: c.constraint, ..o } && constraint_from(c.constraint, Some(*fk))
                    } else {
                        c == o
                    }
                },
        decreases cols@.len() - x,
    {
        if str_eq(cols[x].name.as_str(), name) {
            let target = crate::util::copy_str(&fk.foreign_table_name);
            let column = crate::util::copy_str(&fk.foreign_column_name);
            let columns = vec![column];
            assert(views(columns@) =~= seq![fk.foreign_column_name@]);
            let mut c = cols.remove(x);
            c.constraint = Some(Constraint::ForeignKey(crate::schema::ForeignKey { table: target, columns }));
            cols.insert(x, c);
            found = true;
        }
        x = x + 1;
    }
    found
}

} // verus!

verus! {

proof fn lemma_rows_push(rows: Seq<ColumnRow>, r: ColumnRow, n: Seq<char>)
    ensures
        rows_named(rows.push(r), n) == rows_named(rows, n) + if r.table_name@ == n {
            seq![r]
        } else {
            seq![]
        },
{
    assert(rows.push(r).drop_last() =~= rows);
}

proof fn lemma_indexes_push(ixs: Seq<Index>, i: Index, n: Seq<char>)
    ensures
        indexes_named(ixs.push(i), n) == indexes_named(ixs, n) + if i.table@ == n {
            seq![i]
        } else {
            seq![]
        },
{
    assert(ixs.push(i).drop_last() =~= ixs);
}

proof fn lemma_fks_push(fks: Seq<ForeignKey>, f: ForeignKey, t: Seq<char>, c: Seq<char>)
    ensures
        fk_for(fks.push(f), t, c) == if f.table_name@ == t && f.column_name@ == c {
            Some(f)
        } else {
            fk_for(fks, t, c)
        },
{
    assert(fks.push(f).drop_last() =~= fks);
}

/// Converts the rows and groups their columns into one table per table name,
/// in the order the names first appear.
fn group_rows(columns: Vec<ColumnRow>, ns: &str) -> (r: Result<Vec<Table>, ParseError>)
    ensures
        r is Err <==> exists|i: int| 0 <= i < columns@.len() && row_type(#[trigger] columns@[i]) is None,
        r matches Ok(ts) ==> assembled(columns@, seq![], seq![], seq![], ns@, ts@),
{
    let ghost rows = columns@;
    let mut tables: Vec<Table> = Vec::new();
    let mut rest = columns;
    while rest.len() > 0
        invariant
            rows == columns@,
            rest@.len() <= rows.len(),
            rest@ == rows.subrange(rows.len() - rest@.len(), rows.len() as int),
            forall|i: int| 0 <= i < rows.len() - rest@.len() ==> row_type(#[trigger] rows[i]) is Some,
            assembled(rows.subrange(0, rows.len() - rest@.len()), seq![], seq![], seq![], ns@, tables@),
        decreases rest@.len(),
    {
        let ghost p = rows.len() - rest@.len();
        let ghost done = rows.subrange(0, p);
        let row = rest.remove(0);
        assert(row == rows[p]);
        let ghost rowv = row;
        let name = crate::util::copy_str(&row.table_name);
        let c = match row.try_into() {
            Ok(c) => c,
            Err(e) => {
                assert(row_type(rows[p]) is None);
                return Err(e);
            },
        };
        let ghost next = rows.subrange(0, p + 1);
        assert(next =~= done.push(rowv));
        let ghost before = tables@;
        match find_table_named(&tables, name.as_str()) {
            Some(t) => {
                let mut table = tables.remove(t);
                let ghost old_table = table;
                table.columns.push(c);
                tables.insert(t, table);
                proof {
                    assert(tables@ =~= before.update(t as int, table));
                    assert forall|u: int| 0 <= u < tables@.len() implies table_from(
                        next,
                        seq![],
                        seq![],
                        ns@,
                        #[trigger] tables@[u],
                    ) && listed(next, seq![], tables@[u].name@) by {
                        lemma_rows_push(done, rowv, tables@[u].name@);
                        assert(table_from(done, seq![], seq![], ns@, before[u]));
                        if u == t {
                            assert forall|x: int| 0 <= x < table.columns@.len() implies row_column_base(
                                rows_named(next, table.name@)[x],
                                #[trigger] table.columns@[x],
                            ) && constraint_from(
                                table.columns@[x].constraint,
                                fk_for(seq![], table.name@, table.columns@[x].name@),
                            ) by {
                                if x < old_table.columns@.len() {
                                    assert(table.columns@[x] == old_table.columns@[x]);
                                }
                            }
                        }
                    }
                    assert forall|n: Seq<char>| #[trigger] listed(next, seq![], n) implies has_table_named(tables@, n) by {
                        lemma_rows_push(done, rowv, n);
                        if n == name@ {
                            assert(tables@[t as int].name@ == n);
                        } else {
                            assert(listed(done, seq![], n));
                            let u = choose|u: int| 0 <= u < before.len() && (#[trigger] before[u]).name@ == n;
                            assert(tables@[u].name@ == n);
                        }
                    }
                }
            },
            None => {
                let mut cols: Vec<Column> = Vec::new();
                cols.push(c);
                let table = Table { schema: Some(ns.to_string()), name, columns: cols, indexes: Vec::new() };
                tables.push(table);
                proof {
                    lemma_rows_push(done, rowv, name@);
                    if rows_named(done, name@).len() > 0 {
                        assert(listed(done, seq![], name@));
                    }
                    assert forall|u: int| 0 <= u < tables@.len() implies table_from(
                        next,
                        seq![],
                        seq![],
                        ns@,
                        #[trigger] tables@[u],
                    ) && listed(next, seq![], tables@[u].name@) by {
                        lemma_rows_push(done, rowv, tables@[u].name@);
                        if u < before.len() {
                            assert(tables@[u] == before[u]);
                            assert(table_from(done, seq![], seq![], ns@, before[u]));
                        } else {
                            assert(table.columns@[0] == c);
                        }
                    }
                    assert forall|n: Seq<char>| #[trigger] listed(next, seq![], n) implies has_table_named(tables@, n) by {
                        lemma_rows_push(done, rowv, n);
                        if n == name@ {
                            assert(tables@[before.len() as int].name@ == n);
                        } else {
                            assert(listed(done, seq![], n));
                            let u = choose|u: int| 0 <= u < before.len() && (#[trigger] before[u]).name@ == n;
                            assert(tables@[u].name@ == n);
                        }
                    }
                }
            },
        }
    }
    assert(rows.subrange(0, rows.len() as int) =~= rows);
    Ok(tables)
}

} // verus!

verus! {

/// Adds an empty table in namespace `ns` for each listed name that no table has.
fn add_listed(tables: &mut Vec<Table>, names: &Vec<String>, ns: &str, rows: Ghost<Seq<ColumnRow>>)
    requires
        assembled(rows@, seq![], seq![], seq![], ns@, old(tables)@),
    ensures
        assembled(rows@, seq![], seq![], names@, ns@, final(tables)@),
{
    let mut j: usize = 0;
    assert(names@.subrange(0, 0) =~= Seq::<String>::empty());
    while j < names.len()
        invariant
            j <= names@.len(),
            assembled(rows@, seq![], seq![], names@.subrange(0, j as int), ns@, tables@),
        decreases names@.len() - j,
    {
        let ghost pre = names@.subrange(0, j as int);
        let ghost next = names@.subrange(0, j + 1);
        let ghost before = tables@;
        let ghost nj = names@[j as int]@;
        assert forall|n: Seq<char>| listed(rows@, next, n) <==> (listed(rows@, pre, n) || n == nj) by {
            if listed(rows@, next, n) && rows_named(rows@, n).len() == 0 {
                let i = choose|i: int| 0 <= i < next.len() && (#[trigger] next[i])@ == n;
                if i < j {
                    assert(pre[i] == next[i]);
                }
            }
            if listed(rows@, pre, n) && rows_named(rows@, n).len() == 0 {
                let i = choose|i: int| 0 <= i < pre.len() && (#[trigger] pre[i])@ == n;
                assert(next[i] == pre[i]);
            }
            if n == nj {
                assert(next[j as int]@ == n);
            }
        }
        if find_table_named(tables, names[j].as_str()).is_none() {
            let t = Table::new(names[j].as_str()).schema(ns);
            tables.push(t);
            proof {
                assert(!listed(rows@, pre, nj));
                assert forall|u: int| 0 <= u < tables@.len() implies table_from(
                    rows@,
                    seq![],
                    seq![],
                    ns@,
                    #[trigger] tables@[u],
                ) && listed(rows@, next, tables@[u].name@) by {
                    if u < before.len() {
                        assert(tables@[u] == before[u]);
                    }
                }
                assert forall|n: Seq<char>| #[trigger] listed(rows@, next, n) implies has_table_named(tables@, n) by {
                    if n == nj {
                        assert(tables@[before.len() as int].name@ == n);
                    } else {
                        let u = choose|u: int| 0 <= u < before.len() && (#[trigger] before[u]).name@ == n;
                        assert(tables@[u].name@ == n);
                    }
                }
            }
        }
        j = j + 1;
    }
    assert(names@.subrange(0, names@.len() as int) =~= names@);
}

} // verus!

verus! {

/// Sets each foreign-key row on its column; says whether every row named a
/// known column.
fn attach_foreign_keys(
    tables: &mut Vec<Table>,
    fks: &Vec<ForeignKey>,
    ns: &str,
    rows: Ghost<Seq<ColumnRow>>,
    names: Ghost<Seq<String>>,
) -> (r: bool)
    requires
        assembled(rows@, seq![], seq![], names@, ns@, old(tables)@),
    ensures
        r == forall|k: int| 0 <= k < fks@.len() ==> fk_known(rows@, #[trigger] fks@[k]),
        r ==> assembled(rows@, fks@, seq![], names@, ns@, final(tables)@),
{
    let mut k: usize = 0;
    assert(fks@.subrange(0, 0) =~= Seq::<ForeignKey>::empty());
    while k < fks.len()
        invariant
            k <= fks@.len(),
            forall|i: int| 0 <= i < k ==> fk_known(rows@, #[trigger] fks@[i]),
            assembled(rows@, fks@.subrange(0, k as int), seq![], names@, ns@, tables@),
        decreases fks@.len() - k,
    {
        let fk = &fks[k];
        let ghost pre = fks@.subrange(0, k as int);
        let ghost next = fks@.subrange(0, k + 1);
        assert(next =~= pre.push(*fk));
        let ghost before = tables@;
        let t = match find_table_named(tables, fk.table_name.as_str()) {
            Some(t) => t,
            None => {
                proof {
                    if rows_named(rows@, fk.table_name@).len() > 0 {
                        assert(listed(rows@, names@, fk.table_name@));
                    }
                }
                return false;
            },
        };
        let mut table = tables.remove(t);
        let ghost old_table = table;
        assert(table_from(rows@, pre, seq![], ns@, old_table));
        let found = set_foreign_key(&mut table.columns, fk.column_name.as_str(), fk);
        if !found {
            proof {
                if fk_known(rows@, *fk) {
                    let x = choose|x: int|
                        0 <= x < rows_named(rows@, fk.table_name@).len() && (#[trigger] rows_named(
                            rows@,
                            fk.table_name@,
                        )[x]).column_name@ == fk.column_name@;
                    assert(old_table.columns@[x].name@ == fk.column_name@);
                }
            }
            return false;
        }
        tables.insert(t, table);
        proof {
            assert(tables@ =~= before.update(t as int, table));
            assert forall|u: int| 0 <= u < tables@.len() implies table_from(
                rows@,
                next,
                seq![],
                ns@,
                #[trigger] tables@[u],
            ) && listed(rows@, names@, tables@[u].name@) by {
                assert(table_from(rows@, pre, seq![], ns@, before[u]));
                if u == t {
                    assert forall|x: int| 0 <= x < table.columns@.len() implies row_column_base(
                        rows_named(rows@, table.name@)[x],
                        #[trigger] table.columns@[x],
                    ) && constraint_from(table.columns@[x].constraint, fk_for(next, table.name@, table.columns@[x].name@)) by {
                        lemma_fks_push(pre, *fk, table.name@, table.columns@[x].name@);
                        assert(old_table.columns@[x].name@ == table.columns@[x].name@);
                    }
                } else {
                    assert(before[u].name@ != fk.table_name@);
                    assert forall|x: int| 0 <= x < tables@[u].columns@.len() implies constraint_from(
                        (#[trigger] tables@[u].columns@[x]).constraint,
                        fk_for(next, tables@[u].name@, tables@[u].columns@[x].name@),
                    ) by {
                        lemma_fks_push(pre, *fk, tables@[u].name@, tables@[u].columns@[x].name@);
                    }
                }
            }
            assert forall|n: Seq<char>| #[trigger] listed(rows@, names@, n) implies has_table_named(tables@, n) by {
                let u = choose|u: int| 0 <= u < before.len() && (#[trigger] before[u]).name@ == n;
                assert(tables@[u].name@ == n);
            }
            let x = choose|x: int| 0 <= x < old_table.columns@.len() && (#[trigger] old_table.columns@[x]).name@ == fk.column_name@;
            assert(rows_named(rows@, fk.table_name@)[x].column_name@ == fk.column_name@);
        }
        k = k + 1;
    }
    assert(fks@.subrange(0, fks@.len() as int) =~= fks@);
    true
}

} // verus!

verus! {

/// Adds each index row to its table; says whether every row named a known table.
fn attach_indexes(
    tables: &mut Vec<Table>,
    ixs: &Vec<Index>,
    ns: &str,
    rows: Ghost<Seq<ColumnRow>>,
    fks: Ghost<Seq<ForeignKey>>,
    names: Ghost<Seq<String>>,
) -> (r: bool)
    requires
        assembled(rows@, fks@, seq![], names@, ns@, old(tables)@),
    ensures
        r == forall|k: int| 0 <= k < ixs@.len() ==> listed(rows@, names@, (#[trigger] ixs@[k]).table@),
        r ==> assembled(rows@, fks@, ixs@, names@, ns@, final(tables)@),
{
    let mut k: usize = 0;
    assert(ixs@.subrange(0, 0) =~= Seq::<Index>::empty());
    while k < ixs.len()
        invariant
            k <= ixs@.len(),
            forall|i: int| 0 <= i < k ==> listed(rows@, names@, (#[trigger] ixs@[i]).table@),
            assembled(rows@, fks@, ixs@.subrange(0, k as int), names@, ns@, tables@),
        decreases ixs@.len() - k,
    {
        let ix = &ixs[k];
        let ghost pre = ixs@.subrange(0, k as int);
        let ghost next = ixs@.subrange(0, k + 1);
        assert(next =~= pre.push(*ix));
        let ghost before = tables@;
        let t = match find_table_named(tables, ix.table.as_str()) {
            Some(t) => t,
            None => return false,
        };
        let mut table = tables.remove(t);
        let ghost old_table = table;
        let built = crate::schema::Index {
            name: crate::util::copy_str(&ix.name),
            unique: ix.unique,
            schema: Some(crate::util::copy_str(&ix.schema)),
            table: crate::util::copy_str(&ix.table),
            columns: crate::util::copy_strs(&ix.columns),
            kind: index_kind_of(ix.kind.as_str()),
        };
        table.indexes.push(built);
        tables.insert(t, table);
        proof {
            assert(tables@ =~= before.update(t as int, table));
            assert forall|u: int| 0 <= u < tables@.len() implies table_from(
                rows@,
                fks@,
                next,
                ns@,
                #[trigger] tables@[u],
            ) && listed(rows@, names@, tables@[u].name@) by {
                assert(table_from(rows@, fks@, pre, ns@, before[u]));
                lemma_indexes_push(pre, *ix, tables@[u].name@);
                if u == t {
                    assert forall|x: int| 0 <= x < table.indexes@.len() implies index_from(
                        indexes_named(next, table.name@)[x],
                        #[trigger] table.indexes@[x],
                    ) by {
                        if x < old_table.indexes@.len() {
                            assert(table.indexes@[x] == old_table.indexes@[x]);
                        }
                    }
                }
            }
            assert forall|n: Seq<char>| #[trigger] listed(rows@, names@, n) implies has_table_named(tables@, n) by {
                let u = choose|u: int| 0 <= u < before.len() && (#[trigger] before[u]).name@ == n;
                assert(tables@[u].name@ == n);
            }
            assert(listed(rows@, names@, before[t as int].name@));
        }
        k = k + 1;
    }
    assert(ixs@.subrange(0, ixs@.len() as int) =~= ixs@);
    true
}

/// Assembles the schema named `schema_name` from catalog rows: one table for
/// each table name that a column row or `table_names` gives, in the order the
/// names first appear, holding the columns of its rows in order, the foreign keys
/// of the foreign-key rows, and the indexes of the index rows.
pub fn schema_from_rows(
    schema_name: &str,
    columns: Vec<ColumnRow>,
    foreign_keys: Vec<ForeignKey>,
    indexes: Vec<Index>,
    table_names: Vec<String>,
) -> (r: Result<Schema, IntrospectError>)
    ensures
        (r matches Err(e) && e is Parse) <==> exists|i: int|
            0 <= i < columns@.len() && row_type(#[trigger] columns@[i]) is None,
        (r matches Err(e) && e is UnknownReference) <==> (forall|i: int|
            0 <= i < columns@.len() ==> row_type(#[trigger] columns@[i]) is Some) && unknown_row_reference(
            columns@,
            foreign_keys@,
            indexes@,
            table_names@,
        ),
        r matches Ok(s) ==> assembled(columns@, foreign_keys@, indexes@, table_names@, schema_name@, s.tables@),
{
    let ghost rows = columns@;
    let mut tables = match group_rows(columns, schema_name) {
        Ok(t) => t,
        Err(e) => return Err(IntrospectError::Parse(e)),
    };
    add_listed(&mut tables, &table_names, schema_name, Ghost(rows));
    if !attach_foreign_keys(&mut tables, &foreign_keys, schema_name, Ghost(rows), Ghost(table_names@)) {
        return Err(IntrospectError::UnknownReference);
    }
    if !attach_indexes(&mut tables, &indexes, schema_name, Ghost(rows), Ghost(foreign_keys@), Ghost(table_names@)) {
        return Err(IntrospectError::UnknownReference);
    }
    Ok(Schema { tables })
}

} // verus!
