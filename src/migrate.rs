//! The migration engine: diffing two schemas into an ordered list of operations.
use crate::operation::{AlterAction, Migration, Operation};
use crate::order::{least_name_first, lemma_least_members, lemma_name_lt_asym, lemma_name_lt_trans, name_lt, blocked, closed_set, distinct, edge, is_member, is_permutation, order_tables, references, respects};
use crate::schema::{
    constraint_key, copy_opt_expr, copy_opt_generated, same_column,
    same_generated, same_opt_constraint, same_opt_expr, same_opt_generated, opt_constraint_key,
    opt_expr_text, same_table, Column, Constraint, Index, Schema, Table,
};
use crate::util::{copy_opt_str, copy_str, opt_str_eq, opt_view, str_eq, views};
use crate::Dialect;
use vstd::prelude::*;

verus! {

/// What a migration may contain.
#[derive(Debug, Clone, Copy)]
pub struct MigrationOptions {
    /// Whether tables and columns may be dropped.
    pub allow_destructive: bool,
    /// The dialect the migration is meant for.
    pub dialect: Dialect,
}

/// Why no migration was produced.
#[derive(Debug, Clone, Copy, PartialEq, Eq, Structural)]
pub enum MigrateError {
    /// A foreign key of the desired schema names a table or column it lacks.
    UnknownReference,
    /// The foreign keys among tables to create, or among tables to drop, form a cycle.
    DependencyCycle,
    /// A table or column would be dropped, and drops are not allowed.
    DestructiveChangeRejected,
}

/// Two tables have the same namespace and name.
pub open spec fn key_eq(a: Table, b: Table) -> bool {
    opt_view(&a.schema) == opt_view(&b.schema) && a.name@ == b.name@
}

/// Some table of `ts` has the identity of `t`.
pub open spec fn has_key(ts: Seq<Table>, t: Table) -> bool {
    exists|j: int| 0 <= j < ts.len() && key_eq(#[trigger] ts[j], t)
}

pub open spec fn has_column_named(cols: Seq<Column>, name: Seq<char>) -> bool {
    exists|i: int| 0 <= i < cols.len() && (#[trigger] cols[i]).name@ == name
}

pub open spec fn has_index_named(ids: Seq<Index>, name: Seq<char>) -> bool {
    exists|i: int| 0 <= i < ids.len() && (#[trigger] ids[i]).name@ == name
}

/// No two tables share an identity, and within each table no two columns, and
/// no two indexes, share a name.
pub open spec fn well_formed(s: Schema) -> bool {
    &&& forall|i: int, j: int|
        0 <= i < s.tables@.len() && 0 <= j < s.tables@.len() && i != j ==> !key_eq(
            #[trigger] s.tables@[i],
            #[trigger] s.tables@[j],
        )
    &&& forall|t: int| 0 <= t < s.tables@.len() ==> unique_names(#[trigger] s.tables@[t])
}

pub open spec fn unique_names(t: Table) -> bool {
    &&& forall|i: int, j: int|
        0 <= i < t.columns@.len() && 0 <= j < t.columns@.len() && i != j ==> (#[trigger] t.columns@[i]).name@
            != (#[trigger] t.columns@[j]).name@
    &&& forall|i: int, j: int|
        0 <= i < t.indexes@.len() && 0 <= j < t.indexes@.len() && i != j ==> (#[trigger] t.indexes@[i]).name@
            != (#[trigger] t.indexes@[j]).name@
}

/// The foreign key `c` names a table of `ts` that has each referenced column.
pub open spec fn resolves(ts: Seq<Table>, c: Constraint) -> bool {
    exists|j: int|
        0 <= j < ts.len() && (#[trigger] ts[j]).name@ == constraint_key(c).0 && forall|x: int|
            0 <= x < constraint_key(c).1.len() ==> has_column_named(
                ts[j].columns@,
                #[trigger] constraint_key(c).1[x],
            )
}

pub open spec fn column_resolves(ts: Seq<Table>, c: Column) -> bool {
    match c.constraint {
        Some(k) => resolves(ts, k),
        None => true,
    }
}

/// Some foreign key of `s` names a table or column that `s` lacks.
pub open spec fn unknown_reference(s: Schema) -> bool {
    exists|t: int, i: int|
        0 <= t < s.tables@.len() && 0 <= i < s.tables@[t].columns@.len() && !column_resolves(
            s.tables@,
            #[trigger] s.tables@[t].columns@[i],
        )
}

/// Table `c` has a column that `d` lacks.
pub open spec fn drops_column(c: Table, d: Table) -> bool {
    exists|i: int| 0 <= i < c.columns@.len() && !has_column_named(d.columns@, #[trigger] c.columns@[i].name@)
}

/// Going from `cur` to `des` drops a table or a column.
pub open spec fn needs_drop(cur: Schema, des: Schema) -> bool {
    exists|a: int|
        0 <= a < cur.tables@.len() && (!has_key(des.tables@, #[trigger] cur.tables@[a]) || exists|b: int|
            0 <= b < des.tables@.len() && key_eq(cur.tables@[a], #[trigger] des.tables@[b]) && drops_column(
                cur.tables@[a],
                des.tables@[b],
            ))
}

pub fn find_table(ts: &Vec<Table>, t: &Table) -> (r: Option<usize>)
    ensures
        r matches Some(j) ==> j < ts@.len() && key_eq(ts@[j as int], *t),
        r is None ==> !has_key(ts@, *t),
{
    let mut j: usize = 0;
    while j < ts.len()
        invariant
            j <= ts@.len(),
            forall|k: int| 0 <= k < j ==> !key_eq(#[trigger] ts@[k], *t),
        decreases ts@.len() - j,
    {
        if opt_str_eq(&ts[j].schema, &t.schema) && str_eq(ts[j].name.as_str(), t.name.as_str()) {
            return Some(j);
        }
        j = j + 1;
    }
    None
}

pub fn find_column(cols: &Vec<Column>, name: &str) -> (r: Option<usize>)
    ensures
        r matches Some(i) ==> i < cols@.len() && cols@[i as int].name@ == name@,
        r is None ==> !has_column_named(cols@, name@),
{
    let mut i: usize = 0;
    while i < cols.len()
        invariant
            i <= cols@.len(),
            forall|k: int| 0 <= k < i ==> (#[trigger] cols@[k]).name@ != name@,
        decreases cols@.len() - i,
    {
        if str_eq(cols[i].name.as_str(), name) {
            return Some(i);
        }
        i = i + 1;
    }
    None
}

pub fn find_index(ids: &Vec<Index>, name: &str) -> (r: Option<usize>)
    ensures
        r matches Some(i) ==> i < ids@.len() && ids@[i as int].name@ == name@,
        r is None ==> !has_index_named(ids@, name@),
{
    let mut i: usize = 0;
    while i < ids.len()
        invariant
            i <= ids@.len(),
            forall|k: int| 0 <= k < i ==> (#[trigger] ids@[k]).name@ != name@,
        decreases ids@.len() - i,
    {
        if str_eq(ids[i].name.as_str(), name) {
            return Some(i);
        }
        i = i + 1;
    }
    None
}

fn has_all_columns(t: &Table, names: &Vec<String>) -> (r: bool)
    ensures
        r == forall|x: int| 0 <= x < names@.len() ==> has_column_named(t.columns@, #[trigger] views(names@)[x]),
{
    let mut x: usize = 0;
    while x < names.len()
        invariant
            x <= names@.len(),
            forall|y: int| 0 <= y < x ==> has_column_named(t.columns@, #[trigger] views(names@)[y]),
        decreases names@.len() - x,
    {
        if find_column(&t.columns, names[x].as_str()).is_none() {
            assert(!has_column_named(t.columns@, views(names@)[x as int]));
            return false;
        }
        x = x + 1;
    }
    true
}

fn constraint_resolves(ts: &Vec<Table>, c: &Constraint) -> (r: bool)
    ensures
        r == resolves(ts@, *c),
{
    match c {
        Constraint::ForeignKey(fk) => {
            let mut j: usize = 0;
            while j < ts.len()
                invariant
                    j <= ts@.len(),
                    *c == Constraint::ForeignKey(*fk),
                    forall|k: int| 0 <= k < j ==> !({
                        &&& (#[trigger] ts@[k]).name@ == constraint_key(*c).0
                        &&& forall|x: int| 0 <= x < constraint_key(*c).1.len() ==> has_column_named(
                            ts@[k].columns@,
                            #[trigger] constraint_key(*c).1[x],
                        )
                    }),
                decreases ts@.len() - j,
            {
                assert(constraint_key(*c).1 == views(fk.columns@));
                if str_eq(ts[j].name.as_str(), fk.table.as_str()) && has_all_columns(&ts[j], &fk.columns) {
                    return true;
                }
                j = j + 1;
            }
            false
        },
    }
}

/// Whether every foreign key of `s` names a table of `s` with each referenced column.
pub fn references_resolve(s: &Schema) -> (r: bool)
    ensures
        r == !unknown_reference(*s),
{
    let mut t: usize = 0;
    while t < s.tables.len()
        invariant
            t <= s.tables@.len(),
            forall|u: int, i: int|
                0 <= u < t && 0 <= i < s.tables@[u].columns@.len() ==> column_resolves(
                    s.tables@,
                    #[trigger] s.tables@[u].columns@[i],
                ),
        decreases s.tables@.len() - t,
    {
        let table = &s.tables[t];
        let mut i: usize = 0;
        while i < table.columns.len()
            invariant
                t < s.tables@.len(),
                *table == s.tables@[t as int],
                i <= table.columns@.len(),
                forall|u: int, i: int|
                    0 <= u < t && 0 <= i < s.tables@[u].columns@.len() ==> column_resolves(
                        s.tables@,
                        #[trigger] s.tables@[u].columns@[i],
                    ),
                forall|k: int| 0 <= k < i ==> column_resolves(s.tables@, #[trigger] table.columns@[k]),
            decreases table.columns@.len() - i,
        {
            if let Some(c) = &table.columns[i].constraint {
                if !constraint_resolves(&s.tables, c) {
                    assert(!column_resolves(s.tables@, s.tables@[t as int].columns@[i as int]));
                    return false;
                }
            }
            i = i + 1;
        }
        t = t + 1;
    }
    true
}

fn column_dropped(c: &Table, d: &Table) -> (r: bool)
    ensures
        r == drops_column(*c, *d),
{
    let mut i: usize = 0;
    while i < c.columns.len()
        invariant
            i <= c.columns@.len(),
            forall|k: int| 0 <= k < i ==> has_column_named(d.columns@, #[trigger] c.columns@[k].name@),
        decreases c.columns@.len() - i,
    {
        if find_column(&d.columns, c.columns[i].name.as_str()).is_none() {
            return true;
        }
        i = i + 1;
    }
    false
}

/// Whether going from `cur` to `des` drops a table or a column.
pub fn drop_required(cur: &Schema, des: &Schema) -> (r: bool)
    requires
        well_formed(*des),
    ensures
        r == needs_drop(*cur, *des),
{
    let mut a: usize = 0;
    while a < cur.tables.len()
        invariant
            well_formed(*des),
            a <= cur.tables@.len(),
            forall|k: int|
                0 <= k < a ==> !(!has_key(des.tables@, #[trigger] cur.tables@[k]) || exists|b: int|
                    0 <= b < des.tables@.len() && key_eq(cur.tables@[k], #[trigger] des.tables@[b])
                        && drops_column(cur.tables@[k], des.tables@[b])),
        decreases cur.tables@.len() - a,
    {
        match find_table(&des.tables, &cur.tables[a]) {
            None => return true,
            Some(b) => {
                if column_dropped(&cur.tables[a], &des.tables[b]) {
                    return true;
                }
                proof {
                    assert forall|b2: int|
                        0 <= b2 < des.tables@.len() && key_eq(cur.tables@[a as int], #[trigger] des.tables@[b2])
                            implies !drops_column(cur.tables@[a as int], des.tables@[b2]) by {
                        if b2 != b {
                            assert(key_eq(des.tables@[b as int], des.tables@[b2]));
                        }
                    }
                }
            },
        }
        a = a + 1;
    }
    false
}

} // verus!

verus! {

/// The attributes that a migration changes agree between two columns.
pub open spec fn column_unchanged(a: Column, b: Column) -> bool {
    &&& a.typ == b.typ
    &&& a.nullable == b.nullable
    &&& opt_expr_text(a.default) == opt_expr_text(b.default)
    &&& same_opt_generated(a.generated, b.generated)
    &&& opt_constraint_key(a.constraint) == opt_constraint_key(b.constraint)
}

pub open spec fn has_matching_column(cols: Seq<Column>, d: Column) -> bool {
    exists|i: int| 0 <= i < cols.len() && (#[trigger] cols[i]).name@ == d.name@ && column_unchanged(cols[i], d)
}

/// Every column of `d` is in `c` unchanged, and `c` has no other column.
pub open spec fn columns_agree(c: Table, d: Table) -> bool {
    &&& forall|j: int| 0 <= j < d.columns@.len() ==> has_matching_column(c.columns@, #[trigger] d.columns@[j])
    &&& !drops_column(c, d)
}

pub open spec fn has_matching_index(ids: Seq<Index>, d: Index) -> bool {
    exists|i: int| 0 <= i < ids.len() && (#[trigger] ids[i]).name@ == d.name@ && ids[i].same_spec(&d)
}

/// Every index of `d` is in `c` unchanged, and `c` has no other index.
pub open spec fn indexes_agree(c: Table, d: Table) -> bool {
    &&& forall|j: int| 0 <= j < d.indexes@.len() ==> has_matching_index(c.indexes@, #[trigger] d.indexes@[j])
    &&& forall|i: int| 0 <= i < c.indexes@.len() ==> has_index_named(d.indexes@, #[trigger] c.indexes@[i].name@)
}

/// Where an action stands in an `ALTER TABLE`: constraint drops, then column
/// changes and drops, then new columns, then new constraints.
pub open spec fn action_rank(a: AlterAction) -> int {
    match a {
        AlterAction::DropConstraint(..) => 0,
        AlterAction::AddColumn(_) => 2,
        AlterAction::AddConstraint(..) => 3,
        _ => 1,
    }
}

/// Column `i` of `c` and column `j` of `d` share the name `n`.
pub open spec fn matched(c: Table, d: Table, i: int, j: int, n: Seq<char>) -> bool {
    &&& 0 <= i < c.columns@.len()
    &&& 0 <= j < d.columns@.len()
    &&& c.columns@[i].name@ == n
    &&& d.columns@[j].name@ == n
}

/// The action is called for by going from table `c` to table `d`.
pub open spec fn action_justified(a: AlterAction, c: Table, d: Table) -> bool {
    match a {
        AlterAction::AddColumn(x) => exists|j: int|
            0 <= j < d.columns@.len() && same_column(x, #[trigger] d.columns@[j]) && !has_column_named(
                c.columns@,
                d.columns@[j].name@,
            ),
        AlterAction::DropColumn(n) => exists|i: int|
            0 <= i < c.columns@.len() && (#[trigger] c.columns@[i]).name@ == n@ && !has_column_named(
                d.columns@,
                n@,
            ),
        AlterAction::AlterColumnType(n, t) => exists|i: int, j: int|
            #[trigger] matched(c, d, i, j, n@) && t == d.columns@[j].typ && c.columns@[i].typ != t,
        AlterAction::AlterColumnNullability(n, b) => exists|i: int, j: int|
            #[trigger] matched(c, d, i, j, n@) && b == d.columns@[j].nullable && c.columns@[i].nullable != b,
        AlterAction::AlterColumnDefault(n, e, g) => exists|i: int, j: int|
            #[trigger] matched(c, d, i, j, n@) && opt_expr_text(e) == opt_expr_text(d.columns@[j].default)
                && same_opt_generated(g, d.columns@[j].generated) && !(opt_expr_text(c.columns@[i].default)
                == opt_expr_text(d.columns@[j].default) && same_opt_generated(
                c.columns@[i].generated,
                d.columns@[j].generated,
            )),
        AlterAction::AddConstraint(n, k) => exists|i: int, j: int|
            #[trigger] matched(c, d, i, j, n@) && opt_constraint_key(d.columns@[j].constraint) == Some(
                constraint_key(k),
            ) && opt_constraint_key(c.columns@[i].constraint) != Some(constraint_key(k)),
        AlterAction::DropConstraint(n, k) => exists|i: int, j: int|
            #[trigger] matched(c, d, i, j, n@) && opt_constraint_key(c.columns@[i].constraint) == Some(
                constraint_key(k),
            ) && opt_constraint_key(d.columns@[j].constraint) != Some(constraint_key(k)),
    }
}

/// Every action is called for, and the actions come in rank order.
pub open spec fn actions_ok(acts: Seq<AlterAction>, c: Table, d: Table) -> bool {
    &&& forall|k: int| 0 <= k < acts.len() ==> action_justified(#[trigger] acts[k], c, d)
    &&& forall|k1: int, k2: int|
        0 <= k1 < k2 < acts.len() ==> action_rank(#[trigger] acts[k1]) <= action_rank(#[trigger] acts[k2])
}

/// The index operation is called for by going from table `c` to table `d`: a
/// new or changed index of `d` is created, an index of `c` that `d` lacks or
/// changes is dropped.
pub open spec fn index_justified(o: Operation, c: Table, d: Table) -> bool {
    match o {
        Operation::CreateIndex(x) => exists|j: int|
            0 <= j < d.indexes@.len() && x.same_spec(#[trigger] &d.indexes@[j]) && !has_matching_index(
                c.indexes@,
                d.indexes@[j],
            ),
        Operation::DropIndex(s, n) => exists|i: int|
            0 <= i < c.indexes@.len() && (#[trigger] c.indexes@[i]).name@ == n@ && opt_view(&s) == opt_view(
                &c.indexes@[i].schema,
            ) && !has_matching_index(d.indexes@, c.indexes@[i]),
        _ => false,
    }
}

/// The kind of an action and the column it is on.
pub open spec fn action_key(a: AlterAction) -> (int, Seq<char>) {
    match a {
        AlterAction::AddColumn(x) => (0, x.name@),
        AlterAction::DropColumn(n) => (1, n@),
        AlterAction::AlterColumnType(n, _) => (2, n@),
        AlterAction::AlterColumnNullability(n, _) => (3, n@),
        AlterAction::AlterColumnDefault(n, _, _) => (4, n@),
        AlterAction::AddConstraint(n, _) => (5, n@),
        AlterAction::DropConstraint(n, _) => (6, n@),
    }
}

pub open spec fn has_action(acts: Seq<AlterAction>, key: (int, Seq<char>)) -> bool {
    exists|k: int| 0 <= k < acts.len() && action_key(#[trigger] acts[k]) == key
}

/// No two actions have the same kind and column.
pub open spec fn keys_unique(acts: Seq<AlterAction>) -> bool {
    forall|k1: int, k2: int|
        0 <= k1 < acts.len() && 0 <= k2 < acts.len() && k1 != k2 ==> action_key(#[trigger] acts[k1])
            != action_key(#[trigger] acts[k2])
}

/// Every change that column `j` of `d` needs has its action, looked up for
/// each kind in the given sequence.
pub open spec fn column_covered_in(
    dc: Seq<AlterAction>,
    al: Seq<AlterAction>,
    ad: Seq<AlterAction>,
    ac: Seq<AlterAction>,
    c: Table,
    d: Table,
    j: int,
) -> bool {
    let x = d.columns@[j];
    if !has_column_named(c.columns@, x.name@) {
        has_action(ad, (0, x.name@))
    } else {
        forall|i: int|
            0 <= i < c.columns@.len() && (#[trigger] c.columns@[i]).name@ == x.name@ ==> {
                let y = c.columns@[i];
                &&& y.typ != x.typ ==> has_action(al, (2, x.name@))
                &&& y.nullable != x.nullable ==> has_action(al, (3, x.name@))
                &&& !(opt_expr_text(y.default) == opt_expr_text(x.default) && same_opt_generated(
                    y.generated,
                    x.generated,
                )) ==> has_action(al, (4, x.name@))
                &&& (opt_constraint_key(y.constraint) != opt_constraint_key(x.constraint) && y.constraint is Some)
                    ==> has_action(dc, (6, x.name@))
                &&& (opt_constraint_key(y.constraint) != opt_constraint_key(x.constraint) && x.constraint is Some)
                    ==> has_action(ac, (5, x.name@))
            }
    }
}

/// Every needed change has its action, exactly once.
pub open spec fn actions_complete(acts: Seq<AlterAction>, c: Table, d: Table) -> bool {
    &&& forall|j: int| 0 <= j < d.columns@.len() ==> #[trigger] column_covered_in(acts, acts, acts, acts, c, d, j)
    &&& forall|i: int|
        0 <= i < c.columns@.len() && !has_column_named(d.columns@, (#[trigger] c.columns@[i]).name@) ==> has_action(
            acts,
            (1, c.columns@[i].name@),
        )
    &&& keys_unique(acts)
}

/// Every key of `v` is a key of `w`.
pub open spec fn includes(w: Seq<AlterAction>, v: Seq<AlterAction>) -> bool {
    forall|key: (int, Seq<char>)| #[trigger] has_action(v, key) ==> has_action(w, key)
}

/// Every action of `v` is on a column named by `d` at an index in `lo..hi`.
pub open spec fn named_from(v: Seq<AlterAction>, d: Table, lo: int, hi: int) -> bool {
    forall|k: int|
        0 <= k < v.len() ==> exists|j: int| lo <= j < hi && d.columns@[j].name@ == (#[trigger] action_key(v[k])).1
}

proof fn lemma_push_action(v: Seq<AlterAction>, a: AlterAction)
    ensures
        includes(v.push(a), v),
        has_action(v.push(a), action_key(a)),
        keys_unique(v) && !has_action(v, action_key(a)) ==> keys_unique(v.push(a)),
{
    assert forall|key: (int, Seq<char>)| #[trigger] has_action(v, key) implies has_action(v.push(a), key) by {
        let k = choose|k: int| 0 <= k < v.len() && action_key(#[trigger] v[k]) == key;
        assert(v.push(a)[k] == v[k]);
    }
    assert(v.push(a)[v.len() as int] == a);
    if keys_unique(v) && !has_action(v, action_key(a)) {
        assert forall|k1: int, k2: int|
            0 <= k1 < v.len() + 1 && 0 <= k2 < v.len() + 1 && k1 != k2 implies action_key(#[trigger] v.push(a)[k1])
                != action_key(#[trigger] v.push(a)[k2]) by {
            if k1 < v.len() && k2 < v.len() {
                assert(v.push(a)[k1] == v[k1]);
                assert(v.push(a)[k2] == v[k2]);
            } else if k1 < v.len() {
                assert(v.push(a)[k1] == v[k1]);
            } else {
                assert(v.push(a)[k2] == v[k2]);
            }
        }
    }
}

/// `v` is `vs` followed by actions on column `name` whose kinds are below `below`.
pub open spec fn extends_with(vs: Seq<AlterAction>, v: Seq<AlterAction>, name: Seq<char>, below: int) -> bool {
    &&& vs.len() <= v.len()
    &&& v.subrange(0, vs.len() as int) == vs
    &&& forall|k: int|
        vs.len() <= k < v.len() ==> (#[trigger] action_key(v[k])).1 == name && action_key(v[k]).0 < below
}

pub open spec fn d_names_unique(d: Table) -> bool {
    forall|a: int, b: int|
        0 <= a < d.columns@.len() && 0 <= b < d.columns@.len() && a != b ==> (#[trigger] d.columns@[a]).name@
            != (#[trigger] d.columns@[b]).name@
}

proof fn lemma_prefix_includes(vs: Seq<AlterAction>, v: Seq<AlterAction>)
    requires
        vs.len() <= v.len(),
        v.subrange(0, vs.len() as int) == vs,
    ensures
        includes(v, vs),
{
    assert forall|key: (int, Seq<char>)| #[trigger] has_action(vs, key) implies has_action(v, key) by {
        let k = choose|k: int| 0 <= k < vs.len() && action_key(#[trigger] vs[k]) == key;
        assert(v.subrange(0, vs.len() as int)[k] == v[k]);
    }
}

proof fn lemma_extend(vs: Seq<AlterAction>, v: Seq<AlterAction>, d: Table, j: int, below: int, a: AlterAction)
    requires
        named_from(vs, d, 0, j),
        d_names_unique(d),
        0 <= j < d.columns@.len(),
        extends_with(vs, v, d.columns@[j].name@, below),
        below <= action_key(a).0,
        action_key(a).1 == d.columns@[j].name@,
        keys_unique(v),
    ensures
        extends_with(vs, v.push(a), d.columns@[j].name@, action_key(a).0 + 1),
        keys_unique(v.push(a)),
        has_action(v.push(a), action_key(a)),
{
    assert(!has_action(v, action_key(a))) by {
        if has_action(v, action_key(a)) {
            let k = choose|k: int| 0 <= k < v.len() && action_key(#[trigger] v[k]) == action_key(a);
            if k < vs.len() {
                assert(v.subrange(0, vs.len() as int)[k] == v[k]);
                assert(vs[k] == v[k]);
                let j2 = choose|j2: int| 0 <= j2 < j && d.columns@[j2].name@ == (#[trigger] action_key(vs[k])).1;
                assert(d.columns@[j2].name@ != d.columns@[j].name@);
            }
        }
    }
    lemma_push_action(v, a);
    let w = v.push(a);
    assert(w.subrange(0, vs.len() as int) =~= v.subrange(0, vs.len() as int));
    assert forall|k: int| vs.len() <= k < w.len() implies (#[trigger] action_key(w[k])).1 == d.columns@[j].name@
        && action_key(w[k]).0 < action_key(a).0 + 1 by {
        if k < v.len() {
            assert(w[k] == v[k]);
        }
    }
}

proof fn lemma_named_extend(vs: Seq<AlterAction>, v: Seq<AlterAction>, d: Table, j: int, below: int)
    requires
        named_from(vs, d, 0, j),
        0 <= j < d.columns@.len(),
        extends_with(vs, v, d.columns@[j].name@, below),
    ensures
        named_from(v, d, 0, j + 1),
        includes(v, vs),
{
    lemma_prefix_includes(vs, v);
    assert forall|k: int| 0 <= k < v.len() implies exists|j2: int|
        0 <= j2 < j + 1 && d.columns@[j2].name@ == (#[trigger] action_key(v[k])).1 by {
        if k < vs.len() {
            assert(v.subrange(0, vs.len() as int)[k] == v[k]);
            let j2 = choose|j2: int| 0 <= j2 < j && d.columns@[j2].name@ == (#[trigger] action_key(vs[k])).1;
        } else {
            assert(d.columns@[j].name@ == action_key(v[k]).1);
        }
    }
}

proof fn lemma_covered_mono(
    v0: Seq<AlterAction>, v1: Seq<AlterAction>, v2: Seq<AlterAction>, v3: Seq<AlterAction>,
    w0: Seq<AlterAction>, w1: Seq<AlterAction>, w2: Seq<AlterAction>, w3: Seq<AlterAction>,
    c: Table,
    d: Table,
    j: int,
)
    requires
        includes(w0, v0),
        includes(w1, v1),
        includes(w2, v2),
        includes(w3, v3),
        column_covered_in(v0, v1, v2, v3, c, d, j),
    ensures
        column_covered_in(w0, w1, w2, w3, c, d, j),
{
}

/// `o` creates an index equal to `x`.
pub open spec fn creates_idx(o: Operation, x: Index) -> bool {
    o matches Operation::CreateIndex(y) && y.same_spec(&x)
}

/// `o` drops the index `x`.
pub open spec fn drops_idx(o: Operation, x: Index) -> bool {
    o matches Operation::DropIndex(s, n) && n@ == x.name@ && opt_view(&s) == opt_view(&x.schema)
}

pub open spec fn creates_index(ops: Seq<Operation>, lo: int, x: Index) -> bool {
    exists|k: int| lo <= k < ops.len() && creates_idx(#[trigger] ops[k], x)
}

pub open spec fn drops_index(ops: Seq<Operation>, lo: int, x: Index) -> bool {
    exists|k: int| lo <= k < ops.len() && drops_idx(#[trigger] ops[k], x)
}

proof fn lemma_ops_push(ops: Seq<Operation>, o: Operation, lo: int)
    requires
        0 <= lo,
    ensures
        forall|x: Index| #[trigger] creates_index(ops, lo, x) ==> creates_index(ops.push(o), lo, x),
        forall|x: Index| #[trigger] drops_index(ops, lo, x) ==> drops_index(ops.push(o), lo, x),
        forall|x: Index| creates_idx(o, x) && lo <= ops.len() ==> #[trigger] creates_index(ops.push(o), lo, x),
        forall|x: Index| drops_idx(o, x) && lo <= ops.len() ==> #[trigger] drops_index(ops.push(o), lo, x),
{
    assert forall|x: Index| #[trigger] creates_index(ops, lo, x) implies creates_index(ops.push(o), lo, x) by {
        let k = choose|k: int| lo <= k < ops.len() && creates_idx(#[trigger] ops[k], x);
        assert(ops.push(o)[k] == ops[k]);
    }
    assert forall|x: Index| #[trigger] drops_index(ops, lo, x) implies drops_index(ops.push(o), lo, x) by {
        let k = choose|k: int| lo <= k < ops.len() && drops_idx(#[trigger] ops[k], x);
        assert(ops.push(o)[k] == ops[k]);
    }
    assert(ops.push(o)[ops.len() as int] == o);
}

pub open spec fn is_index_op(o: Operation) -> bool {
    o is CreateIndex || o is DropIndex
}

/// The changes that bring the columns of `c` to those of `d`: constraint
/// drops, then column changes and drops, then new columns, then new constraints.
pub fn diff_columns(c: &Table, d: &Table) -> (r: Vec<AlterAction>)
    requires
        unique_names(*c),
        unique_names(*d),
    ensures
        r@.len() == 0 <==> columns_agree(*c, *d),
        actions_ok(r@, *c, *d),
        actions_complete(r@, *c, *d),
{
    let mut drop_cons: Vec<AlterAction> = Vec::new();
    let mut alters: Vec<AlterAction> = Vec::new();
    let mut adds: Vec<AlterAction> = Vec::new();
    let mut add_cons: Vec<AlterAction> = Vec::new();
    let mut j: usize = 0;
    assert(d_names_unique(*d));
    while j < d.columns.len()
        invariant
            unique_names(*c),
            d_names_unique(*d),
            j <= d.columns@.len(),
            (drop_cons@.len() + alters@.len() + adds@.len() + add_cons@.len() == 0) <==> forall|k: int|
                0 <= k < j ==> has_matching_column(c.columns@, #[trigger] d.columns@[k]),
            forall|k: int| 0 <= k < drop_cons@.len() ==> (#[trigger] drop_cons@[k]) is DropConstraint && action_justified(drop_cons@[k], *c, *d),
            forall|k: int| 0 <= k < alters@.len() ==> action_rank(#[trigger] alters@[k]) == 1 && action_justified(alters@[k], *c, *d),
            forall|k: int| 0 <= k < adds@.len() ==> (#[trigger] adds@[k]) is AddColumn && action_justified(adds@[k], *c, *d),
            forall|k: int| 0 <= k < add_cons@.len() ==> (#[trigger] add_cons@[k]) is AddConstraint && action_justified(add_cons@[k], *c, *d),
            forall|k: int| 0 <= k < alters@.len() ==> action_key(#[trigger] alters@[k]).0 != 1,
            named_from(drop_cons@, *d, 0, j as int),
            named_from(alters@, *d, 0, j as int),
            named_from(adds@, *d, 0, j as int),
            named_from(add_cons@, *d, 0, j as int),
            keys_unique(drop_cons@),
            keys_unique(alters@),
            keys_unique(adds@),
            keys_unique(add_cons@),
            forall|k: int| 0 <= k < j ==> #[trigger] column_covered_in(drop_cons@, alters@, adds@, add_cons@, *c, *d, k),
        decreases d.columns@.len() - j,
    {
        let dc = &d.columns[j];
        let ghost v0 = drop_cons@;
        let ghost v1 = alters@;
        let ghost v2 = adds@;
        let ghost v3 = add_cons@;
        let ghost nm = dc.name@;
        assert(v0.subrange(0, v0.len() as int) =~= v0);
        assert(v1.subrange(0, v1.len() as int) =~= v1);
        assert(v2.subrange(0, v2.len() as int) =~= v2);
        assert(v3.subrange(0, v3.len() as int) =~= v3);
        assert(extends_with(v0, v0, nm, 0));
        assert(extends_with(v1, v1, nm, 0));
        assert(extends_with(v2, v2, nm, 0));
        assert(extends_with(v3, v3, nm, 0));
        match find_column(&c.columns, dc.name.as_str()) {
            None => {
                let a = AlterAction::AddColumn(dc.duplicate());
                proof { lemma_extend(v2, adds@, *d, j as int, 0, a); }
                adds.push(a);
            },
            Some(i) => {
                let cc = &c.columns[i];
                assert(matched(*c, *d, i as int, j as int, dc.name@));
                assert(matched(*c, *d, i as int, j as int, cc.name@));
                if !cc.typ.same(&dc.typ) {
                    let a = AlterAction::AlterColumnType(copy_str(&dc.name), dc.typ.duplicate());
                    assert(matched(*c, *d, i as int, j as int, a->AlterColumnType_0@));
                    proof { lemma_extend(v1, alters@, *d, j as int, 2, a); }
                    alters.push(a);
                }
                let ghost s2 = alters@;
                if cc.nullable != dc.nullable {
                    let a = AlterAction::AlterColumnNullability(copy_str(&dc.name), dc.nullable);
                    assert(matched(*c, *d, i as int, j as int, a->AlterColumnNullability_0@));
                    proof { lemma_extend(v1, alters@, *d, j as int, 3, a); }
                    alters.push(a);
                }
                let ghost s3 = alters@;
                assert(s3.subrange(0, s2.len() as int) =~= s2);
                if !same_opt_expr(&cc.default, &dc.default) || !same_generated(&cc.generated, &dc.generated) {
                    let a = AlterAction::AlterColumnDefault(
                        copy_str(&dc.name),
                        copy_opt_expr(&dc.default),
                        copy_opt_generated(&dc.generated),
                    );
                    assert(matched(*c, *d, i as int, j as int, a->AlterColumnDefault_0@));
                    proof { lemma_extend(v1, alters@, *d, j as int, 4, a); }
                    alters.push(a);
                }
                assert(alters@.subrange(0, s3.len() as int) =~= s3);
                assert(alters@.subrange(0, s2.len() as int) =~= s2);
                proof {
                    if cc.typ != dc.typ {
                        assert(has_action(s2, (2, nm)));
                        lemma_prefix_includes(s2, alters@);
                    }
                    if cc.nullable != dc.nullable {
                        assert(has_action(s3, (3, nm)));
                        lemma_prefix_includes(s3, alters@);
                    }
                }
                if !same_opt_constraint(&cc.constraint, &dc.constraint) {
                    if let Some(k) = &cc.constraint {
                        let a = AlterAction::DropConstraint(copy_str(&cc.name), k.duplicate());
                        assert(matched(*c, *d, i as int, j as int, a->DropConstraint_0@));
                        proof { lemma_extend(v0, drop_cons@, *d, j as int, 6, a); }
                        drop_cons.push(a);
                    }
                    if let Some(k) = &dc.constraint {
                        let a = AlterAction::AddConstraint(copy_str(&dc.name), k.duplicate());
                        assert(matched(*c, *d, i as int, j as int, a->AddConstraint_0@));
                        proof { lemma_extend(v3, add_cons@, *d, j as int, 5, a); }
                        add_cons.push(a);
                    }
                    assert(cc.constraint is Some || dc.constraint is Some);
                }
                proof {
                    if has_matching_column(c.columns@, d.columns@[j as int]) {
                        let i2 = choose|i2: int|
                            0 <= i2 < c.columns@.len() && (#[trigger] c.columns@[i2]).name@ == d.columns@[j as int].name@
                                && column_unchanged(c.columns@[i2], d.columns@[j as int]);
                        assert(i2 == i);
                    }
                    assert forall|i3: int| 0 <= i3 < c.columns@.len() && (#[trigger] c.columns@[i3]).name@ == nm implies i3 == i by {
                        if i3 != i {
                            assert(c.columns@[i3].name@ != c.columns@[i as int].name@);
                        }
                    }
                }
            },
        }
        proof {
            assert(forall|k: int| 0 <= k < j ==> d.columns@[k] == d.columns@[k]);
            lemma_named_extend(v0, drop_cons@, *d, j as int, 7);
            lemma_named_extend(v1, alters@, *d, j as int, 7);
            lemma_named_extend(v2, adds@, *d, j as int, 7);
            lemma_named_extend(v3, add_cons@, *d, j as int, 7);
            assert forall|k: int| 0 <= k < j + 1 implies #[trigger] column_covered_in(drop_cons@, alters@, adds@, add_cons@, *c, *d, k) by {
                if k < j {
                    lemma_covered_mono(v0, v1, v2, v3, drop_cons@, alters@, adds@, add_cons@, *c, *d, k);
                }
            }
        }
        j = j + 1;
    }
    let mut i: usize = 0;
    while i < c.columns.len()
        invariant
            i <= c.columns@.len(),
            (drop_cons@.len() + alters@.len() + adds@.len() + add_cons@.len() == 0) <==> (forall|k: int|
                0 <= k < d.columns@.len() ==> has_matching_column(c.columns@, #[trigger] d.columns@[k]))
                && forall|k: int| 0 <= k < i ==> has_column_named(d.columns@, #[trigger] c.columns@[k].name@),
            forall|k: int| 0 <= k < drop_cons@.len() ==> (#[trigger] drop_cons@[k]) is DropConstraint && action_justified(drop_cons@[k], *c, *d),
            forall|k: int| 0 <= k < alters@.len() ==> action_rank(#[trigger] alters@[k]) == 1 && action_justified(alters@[k], *c, *d),
            forall|k: int| 0 <= k < adds@.len() ==> (#[trigger] adds@[k]) is AddColumn && action_justified(adds@[k], *c, *d),
            forall|k: int| 0 <= k < add_cons@.len() ==> (#[trigger] add_cons@[k]) is AddConstraint && action_justified(add_cons@[k], *c, *d),
            unique_names(*c),
            keys_unique(drop_cons@),
            keys_unique(alters@),
            keys_unique(adds@),
            keys_unique(add_cons@),
            forall|k: int| 0 <= k < d.columns@.len() ==> #[trigger] column_covered_in(drop_cons@, alters@, adds@, add_cons@, *c, *d, k),
            forall|k: int|
                0 <= k < alters@.len() && action_key(#[trigger] alters@[k]).0 == 1 ==> exists|i2: int|
                    0 <= i2 < i && c.columns@[i2].name@ == action_key(alters@[k]).1,
            forall|k: int|
                0 <= k < i && !has_column_named(d.columns@, (#[trigger] c.columns@[k]).name@) ==> has_action(
                    alters@,
                    (1, c.columns@[k].name@),
                ),
        decreases c.columns@.len() - i,
    {
        let ghost v1 = alters@;
        if find_column(&d.columns, c.columns[i].name.as_str()).is_none() {
            let a = AlterAction::DropColumn(copy_str(&c.columns[i].name));
            proof {
                assert(!has_action(v1, action_key(a))) by {
                    if has_action(v1, action_key(a)) {
                        let k = choose|k: int| 0 <= k < v1.len() && action_key(#[trigger] v1[k]) == action_key(a);
                        let i2 = choose|i2: int| 0 <= i2 < i && c.columns@[i2].name@ == action_key(v1[k]).1;
                        assert(c.columns@[i2].name@ != c.columns@[i as int].name@);
                    }
                }
                lemma_push_action(v1, a);
            }
            alters.push(a);
            proof {
                assert forall|k: int|
                    0 <= k < alters@.len() && action_key(#[trigger] alters@[k]).0 == 1 implies exists|i2: int|
                        0 <= i2 < i + 1 && c.columns@[i2].name@ == action_key(alters@[k]).1 by {
                    if k < v1.len() {
                        assert(alters@[k] == v1[k]);
                    } else {
                        assert(c.columns@[i as int].name@ == action_key(alters@[k]).1);
                    }
                }
            }
        } else {
            assert(v1 =~= alters@);
            assert(includes(alters@, v1));
        }
        proof {
            assert forall|k: int| 0 <= k < d.columns@.len() implies #[trigger] column_covered_in(drop_cons@, alters@, adds@, add_cons@, *c, *d, k) by {
                lemma_covered_mono(drop_cons@, v1, adds@, add_cons@, drop_cons@, alters@, adds@, add_cons@, *c, *d, k);
            }
        }
        i = i + 1;
    }
    let ghost s0 = drop_cons@;
    let ghost s1 = alters@;
    let ghost s2 = adds@;
    let ghost s3 = add_cons@;
    let mut r = drop_cons;
    r.append(&mut alters);
    r.append(&mut adds);
    r.append(&mut add_cons);
    proof {
        assert(r@ =~= s0 + s1 + s2 + s3);
        lemma_concat_includes(s0, s1, s2, s3);
        assert forall|k: int| 0 <= k < r@.len() implies action_justified(#[trigger] r@[k], *c, *d) && (
            k < s0.len() ==> action_rank(r@[k]) == 0) && (s0.len() <= k < s0.len() + s1.len() ==> action_rank(r@[k]) == 1)
            && (s0.len() + s1.len() <= k < s0.len() + s1.len() + s2.len() ==> action_rank(r@[k]) == 2) && (
            s0.len() + s1.len() + s2.len() <= k ==> action_rank(r@[k]) == 3) by {
            if k < s0.len() {
                assert(r@[k] == s0[k]);
            } else if k < s0.len() + s1.len() {
                assert(r@[k] == s1[k - s0.len()]);
            } else if k < s0.len() + s1.len() + s2.len() {
                assert(r@[k] == s2[k - s0.len() - s1.len()]);
            } else {
                assert(r@[k] == s3[k - s0.len() - s1.len() - s2.len()]);
            }
        }
        let n0 = s0.len() as int;
        let n1 = n0 + s1.len();
        let n2 = n1 + s2.len();
        assert forall|k1: int, k2: int|
            0 <= k1 < r@.len() && 0 <= k2 < r@.len() && k1 != k2 implies action_key(#[trigger] r@[k1])
                != action_key(#[trigger] r@[k2]) by {
            if action_rank(r@[k1]) == action_rank(r@[k2]) {
                if k1 < n0 {
                    assert(r@[k1] == s0[k1] && r@[k2] == s0[k2]);
                } else if k1 < n1 {
                    assert(r@[k1] == s1[k1 - n0] && r@[k2] == s1[k2 - n0]);
                } else if k1 < n2 {
                    assert(r@[k1] == s2[k1 - n1] && r@[k2] == s2[k2 - n1]);
                } else {
                    assert(r@[k1] == s3[k1 - n2] && r@[k2] == s3[k2 - n2]);
                }
            }
        }
        assert forall|j: int| 0 <= j < d.columns@.len() implies #[trigger] column_covered_in(r@, r@, r@, r@, *c, *d, j) by {
            lemma_covered_mono(s0, s1, s2, s3, r@, r@, r@, r@, *c, *d, j);
        }
    }
    r
}

proof fn lemma_concat_includes(s0: Seq<AlterAction>, s1: Seq<AlterAction>, s2: Seq<AlterAction>, s3: Seq<AlterAction>)
    ensures
        includes(s0 + s1 + s2 + s3, s0),
        includes(s0 + s1 + s2 + s3, s1),
        includes(s0 + s1 + s2 + s3, s2),
        includes(s0 + s1 + s2 + s3, s3),
{
    let r = s0 + s1 + s2 + s3;
    let n0 = s0.len() as int;
    let n1 = n0 + s1.len();
    let n2 = n1 + s2.len();
    assert forall|key: (int, Seq<char>)| #[trigger] has_action(s0, key) implies has_action(r, key) by {
        let k = choose|k: int| 0 <= k < s0.len() && action_key(#[trigger] s0[k]) == key;
        assert(r[k] == s0[k]);
    }
    assert forall|key: (int, Seq<char>)| #[trigger] has_action(s1, key) implies has_action(r, key) by {
        let k = choose|k: int| 0 <= k < s1.len() && action_key(#[trigger] s1[k]) == key;
        assert(r[n0 + k] == s1[k]);
    }
    assert forall|key: (int, Seq<char>)| #[trigger] has_action(s2, key) implies has_action(r, key) by {
        let k = choose|k: int| 0 <= k < s2.len() && action_key(#[trigger] s2[k]) == key;
        assert(r[n1 + k] == s2[k]);
    }
    assert forall|key: (int, Seq<char>)| #[trigger] has_action(s3, key) implies has_action(r, key) by {
        let k = choose|k: int| 0 <= k < s3.len() && action_key(#[trigger] s3[k]) == key;
        assert(r[n2 + k] == s3[k]);
    }
}

/// Appends the index operations that bring the indexes of `c` to those of `d`:
/// a changed index is dropped and created again.
pub fn diff_indexes(c: &Table, d: &Table, ops: &mut Vec<Operation>)
    requires
        unique_names(*c),
        unique_names(*d),
    ensures
        final(ops)@.len() >= old(ops)@.len(),
        final(ops)@.subrange(0, old(ops)@.len() as int) == old(ops)@,
        forall|k: int| old(ops)@.len() <= k < final(ops)@.len() ==> is_index_op(#[trigger] final(ops)@[k]),
        forall|k: int| old(ops)@.len() <= k < final(ops)@.len() ==> index_justified(#[trigger] final(ops)@[k], *c, *d),
        final(ops)@.len() == old(ops)@.len() <==> indexes_agree(*c, *d),
        forall|j: int|
            0 <= j < d.indexes@.len() && !has_matching_index(c.indexes@, #[trigger] d.indexes@[j]) ==> creates_index(
                final(ops)@,
                old(ops)@.len() as int,
                d.indexes@[j],
            ),
        forall|i: int|
            0 <= i < c.indexes@.len() && !has_matching_index(d.indexes@, #[trigger] c.indexes@[i]) ==> drops_index(
                final(ops)@,
                old(ops)@.len() as int,
                c.indexes@[i],
            ),
{
    let ghost start = ops@;
    let mut j: usize = 0;
    while j < d.indexes.len()
        invariant
            unique_names(*c),
            j <= d.indexes@.len(),
            ops@.len() >= start.len(),
            ops@.subrange(0, start.len() as int) == start,
            forall|k: int| start.len() <= k < ops@.len() ==> is_index_op(#[trigger] ops@[k]),
            forall|k: int| start.len() <= k < ops@.len() ==> index_justified(#[trigger] ops@[k], *c, *d),
            unique_names(*d),
            ops@.len() == start.len() <==> forall|k: int|
                0 <= k < j ==> has_matching_index(c.indexes@, #[trigger] d.indexes@[k]),
            forall|k: int|
                0 <= k < j && !has_matching_index(c.indexes@, #[trigger] d.indexes@[k]) ==> creates_index(
                    ops@,
                    start.len() as int,
                    d.indexes@[k],
                ),
            forall|k: int, i2: int|
                0 <= k < j && 0 <= i2 < c.indexes@.len() && (#[trigger] c.indexes@[i2]).name@ == (#[trigger] d.indexes@[k]).name@
                    && !has_matching_index(d.indexes@, c.indexes@[i2]) ==> drops_index(ops@, start.len() as int, c.indexes@[i2]),
        decreases d.indexes@.len() - j,
    {
        let di = &d.indexes[j];
        let ghost before = ops@;
        match find_index(&c.indexes, di.name.as_str()) {
            None => {
                let o = Operation::CreateIndex(di.duplicate());
                assert(o->CreateIndex_0.same_spec(&d.indexes@[j as int]));
                proof {
                    lemma_ops_push(before, o, start.len() as int);
                    assert(creates_idx(o, d.indexes@[j as int]));
                }
                ops.push(o);
                proof {
                    assert forall|i2: int| 0 <= i2 < c.indexes@.len() implies (#[trigger] c.indexes@[i2]).name@ != d.indexes@[j as int].name@ by {}
                }
            },
            Some(i) => {
                let ci = &c.indexes[i];
                if !ci.same(di) {
                    proof {
                        if has_matching_index(c.indexes@, d.indexes@[j as int]) {
                            let i2 = choose|i2: int|
                                0 <= i2 < c.indexes@.len() && (#[trigger] c.indexes@[i2]).name@ == d.indexes@[j as int].name@
                                    && c.indexes@[i2].same_spec(&d.indexes@[j as int]);
                            assert(i2 == i);
                        }
                        if has_matching_index(d.indexes@, c.indexes@[i as int]) {
                            let j2 = choose|j2: int|
                                0 <= j2 < d.indexes@.len() && (#[trigger] d.indexes@[j2]).name@ == c.indexes@[i as int].name@
                                    && d.indexes@[j2].same_spec(&c.indexes@[i as int]);
                            assert(j2 == j);
                        }
                    }
                    let o1 = Operation::DropIndex(copy_opt_str(&ci.schema), copy_str(&ci.name));
                    assert(index_justified(o1, *c, *d));
                    proof {
                        lemma_ops_push(before, o1, start.len() as int);
                        assert(drops_idx(o1, c.indexes@[i as int]));
                    }
                    ops.push(o1);
                    let ghost mid = ops@;
                    let o2 = Operation::CreateIndex(di.duplicate());
                    assert(o2->CreateIndex_0.same_spec(&d.indexes@[j as int]));
                    proof {
                        lemma_ops_push(mid, o2, start.len() as int);
                        assert(creates_idx(o2, d.indexes@[j as int]));
                    }
                    ops.push(o2);
                    proof {
                        assert(drops_index(mid, start.len() as int, c.indexes@[i as int]));
                        assert(drops_index(ops@, start.len() as int, c.indexes@[i as int]));
                        assert(creates_index(ops@, start.len() as int, d.indexes@[j as int]));
                    }
                }
                proof {
                    if has_matching_index(c.indexes@, d.indexes@[j as int]) {
                        let i2 = choose|i2: int|
                            0 <= i2 < c.indexes@.len() && (#[trigger] c.indexes@[i2]).name@ == d.indexes@[j as int].name@
                                && c.indexes@[i2].same_spec(&d.indexes@[j as int]);
                        assert(i2 == i);
                    }
                    assert forall|i2: int|
                        0 <= i2 < c.indexes@.len() && (#[trigger] c.indexes@[i2]).name@ == d.indexes@[j as int].name@
                            && !has_matching_index(d.indexes@, c.indexes@[i2]) implies drops_index(ops@, start.len() as int, c.indexes@[i2]) by {
                        if i2 != i {
                            assert(c.indexes@[i2].name@ != c.indexes@[i as int].name@);
                        }
                        if c.indexes@[i as int].same_spec(&d.indexes@[j as int]) {
                            assert(d.indexes@[j as int].same_spec(&c.indexes@[i as int]));
                            assert(has_matching_index(d.indexes@, c.indexes@[i as int]));
                        }
                    }
                }
            },
        }
        proof {
            assert(ops@.subrange(0, start.len() as int) =~= before.subrange(0, start.len() as int));
            assert forall|k: int, i2: int|
                0 <= k < j + 1 && 0 <= i2 < c.indexes@.len() && (#[trigger] c.indexes@[i2]).name@ == (#[trigger] d.indexes@[k]).name@
                    && !has_matching_index(d.indexes@, c.indexes@[i2]) implies drops_index(ops@, start.len() as int, c.indexes@[i2]) by {
                if k < j {
                    assert(drops_index(before, start.len() as int, c.indexes@[i2]));
                    assert(drops_index(ops@, start.len() as int, c.indexes@[i2]));
                } else {
                    assert(c.indexes@[i2].name@ == d.indexes@[j as int].name@);
                    assert(drops_index(ops@, start.len() as int, c.indexes@[i2]));
                }
            }
        }
        j = j + 1;
    }
    proof {
        assert forall|i2: int|
            0 <= i2 < c.indexes@.len() && (i2 < 0 || has_index_named(d.indexes@, (#[trigger] c.indexes@[i2]).name@))
                && !has_matching_index(d.indexes@, c.indexes@[i2]) implies drops_index(ops@, start.len() as int, c.indexes@[i2]) by {
            let k = choose|k: int| 0 <= k < d.indexes@.len() && (#[trigger] d.indexes@[k]).name@ == c.indexes@[i2].name@;
        }
    }
    let mut i: usize = 0;
    while i < c.indexes.len()
        invariant
            i <= c.indexes@.len(),
            forall|k: int|
                0 <= k < d.indexes@.len() && !has_matching_index(c.indexes@, #[trigger] d.indexes@[k]) ==> creates_index(
                    ops@,
                    start.len() as int,
                    d.indexes@[k],
                ),
            forall|i2: int|
                0 <= i2 < c.indexes@.len() && (i2 < i || has_index_named(d.indexes@, (#[trigger] c.indexes@[i2]).name@))
                    && !has_matching_index(d.indexes@, c.indexes@[i2]) ==> drops_index(ops@, start.len() as int, c.indexes@[i2]),
            ops@.len() >= start.len(),
            ops@.subrange(0, start.len() as int) == start,
            forall|k: int| start.len() <= k < ops@.len() ==> is_index_op(#[trigger] ops@[k]),
            forall|k: int| start.len() <= k < ops@.len() ==> index_justified(#[trigger] ops@[k], *c, *d),
            unique_names(*d),
            ops@.len() == start.len() <==> (forall|k: int|
                0 <= k < d.indexes@.len() ==> has_matching_index(c.indexes@, #[trigger] d.indexes@[k]))
                && forall|k: int| 0 <= k < i ==> has_index_named(d.indexes@, #[trigger] c.indexes@[k].name@),
        decreases c.indexes@.len() - i,
    {
        let ghost before = ops@;
        let ci = &c.indexes[i];
        if find_index(&d.indexes, ci.name.as_str()).is_none() {
            let o = Operation::DropIndex(copy_opt_str(&ci.schema), copy_str(&ci.name));
            assert(index_justified(o, *c, *d));
            proof {
                lemma_ops_push(before, o, start.len() as int);
                assert(drops_idx(o, c.indexes@[i as int]));
            }
            ops.push(o);
            proof {
                assert(drops_index(ops@, start.len() as int, c.indexes@[i as int]));
            }
        }
        proof {
            assert(ops@.subrange(0, start.len() as int) =~= before.subrange(0, start.len() as int));
        }
        i = i + 1;
    }
}

} // verus!

verus! {

/// `order` lists, each once, the positions of the tables of `ts` whose identity
/// `others` lacks.
pub open spec fn covers(order: Seq<usize>, ts: Seq<Table>, others: Seq<Table>) -> bool {
    &&& distinct(order)
    &&& forall|k: int|
        #![trigger is_member(order, k)]
        #![trigger ts[k]]
        is_member(order, k) <==> (0 <= k < ts.len() && !has_key(others, ts[k]))
}

/// `o` drops the table `t`.
pub open spec fn drops_table(o: Operation, t: Table) -> bool {
    match o {
        Operation::DropTable(s, n) => opt_view(&s) == opt_view(&t.schema) && n@ == t.name@,
        _ => false,
    }
}

/// The tables present in both schemas agree in columns and indexes.
pub open spec fn common_agree(cur: Schema, des: Schema) -> bool {
    forall|a: int, b: int|
        0 <= a < cur.tables@.len() && 0 <= b < des.tables@.len() && key_eq(
            #[trigger] cur.tables@[a],
            #[trigger] des.tables@[b],
        ) ==> columns_agree(cur.tables@[a], des.tables@[b]) && indexes_agree(cur.tables@[a], des.tables@[b])
}

/// Table `a` of `cur` and table `b` of `des` have the same identity.
pub open spec fn common_pair(cur: Schema, des: Schema, a: int, b: int) -> bool {
    0 <= a < cur.tables@.len() && 0 <= b < des.tables@.len() && key_eq(cur.tables@[a], des.tables@[b])
}

/// An `ALTER TABLE` names a table present in both schemas, holds at least one
/// action, and its actions are called for and in order; an index operation is
/// called for by a table present in both schemas.
pub open spec fn alter_for(cur: Schema, des: Schema, o: Operation) -> bool {
    match o {
        Operation::AlterTable(s, n, acts) => exists|a: int, b: int|
            #[trigger] common_pair(cur, des, a, b) && opt_view(&s) == opt_view(&des.tables@[b].schema) && n@
                == des.tables@[b].name@ && acts@.len() > 0 && actions_ok(acts@, cur.tables@[a], des.tables@[b]),
        Operation::CreateIndex(_) | Operation::DropIndex(..) => exists|a: int, b: int|
            #[trigger] common_pair(cur, des, a, b) && index_justified(o, cur.tables@[a], des.tables@[b]),
        _ => true,
    }
}

/// The namespace and name of the table that an `ALTER TABLE` names.
pub open spec fn alter_key(o: Operation) -> (Option<Seq<char>>, Seq<char>) {
    match o {
        Operation::AlterTable(s, n, _) => (opt_view(&s), n@),
        _ => (None, seq![]),
    }
}

/// `o` is an `ALTER TABLE` of table `t`.
pub open spec fn alters_table(o: Operation, t: Table) -> bool {
    o is AlterTable && alter_key(o) == (opt_view(&t.schema), t.name@)
}

/// Some operation at an index in `lo..hi` alters table `t`.
pub open spec fn has_alter(ops: Seq<Operation>, lo: int, hi: int, t: Table) -> bool {
    exists|k: int| lo <= k < hi && alters_table(#[trigger] ops[k], t)
}

/// The `ALTER TABLE`s in `lo..hi` come first, name distinct tables, and there
/// is one for each table present in both schemas whose columns differ.
pub open spec fn alters_exact(cur: Schema, des: Schema, ops: Seq<Operation>, lo: int, mid: int, hi: int) -> bool {
    &&& lo <= mid <= hi
    &&& forall|k: int| lo <= k < mid ==> (#[trigger] ops[k]) is AlterTable
    &&& forall|k: int| mid <= k < hi ==> is_index_op(#[trigger] ops[k])
    &&& forall|k1: int, k2: int|
        lo <= k1 < mid && lo <= k2 < mid && k1 != k2 ==> alter_key(#[trigger] ops[k1]) != alter_key(#[trigger] ops[k2])
    &&& forall|k1: int, k2: int|
        lo <= k1 < k2 < mid ==> !name_lt(alter_key(#[trigger] ops[k2]).1, alter_key(#[trigger] ops[k1]).1)
    &&& forall|a: int, b: int|
        #[trigger] common_pair(cur, des, a, b) && !columns_agree(cur.tables@[a], des.tables@[b]) ==> has_alter(
            ops,
            lo,
            mid,
            des.tables@[b],
        )
}

proof fn lemma_alters_extend(
    cur: Schema,
    des: Schema,
    o1: Seq<Operation>,
    o2: Seq<Operation>,
    lo: int,
    mid: int,
    hi1: int,
    hi2: int,
)
    requires
        alters_exact(cur, des, o1, lo, mid, hi1),
        0 <= lo,
        hi1 <= hi2,
        hi1 <= o1.len(),
        hi2 <= o2.len(),
        forall|k: int| 0 <= k < hi1 ==> o2[k] == o1[k],
        forall|k: int| hi1 <= k < hi2 ==> is_index_op(#[trigger] o2[k]),
    ensures
        alters_exact(cur, des, o2, lo, mid, hi2),
{
    assert forall|k: int| lo <= k < mid implies (#[trigger] o2[k]) is AlterTable by {
        assert(o2[k] == o1[k]);
    }
    assert forall|k: int| mid <= k < hi2 implies is_index_op(#[trigger] o2[k]) by {
        if k < hi1 {
            assert(o2[k] == o1[k]);
        }
    }
    assert forall|k1: int, k2: int|
        lo <= k1 < mid && lo <= k2 < mid && k1 != k2 implies alter_key(#[trigger] o2[k1]) != alter_key(#[trigger] o2[k2]) by {
        assert(o2[k1] == o1[k1] && o2[k2] == o1[k2]);
    }
    assert forall|k1: int, k2: int|
        lo <= k1 < k2 < mid implies !name_lt(alter_key(#[trigger] o2[k2]).1, alter_key(#[trigger] o2[k1]).1) by {
        assert(o2[k1] == o1[k1] && o2[k2] == o1[k2]);
    }
    assert forall|a: int, b: int|
        #[trigger] common_pair(cur, des, a, b) && !columns_agree(cur.tables@[a], des.tables@[b]) implies has_alter(
            o2,
            lo,
            mid,
            des.tables@[b],
        ) by {
        let k = choose|k: int| lo <= k < mid && alters_table(#[trigger] o1[k], des.tables@[b]);
        assert(o2[k] == o1[k]);
    }
}

/// Every index that a table present in both schemas lacks or changes is created,
/// and every index it loses or changes is dropped, by an operation at `lo` or later.
pub open spec fn indexes_exact(cur: Schema, des: Schema, ops: Seq<Operation>, lo: int, bound: int) -> bool {
    &&& forall|a: int, b: int, j: int|
        #[trigger] common_pair(cur, des, a, b) && b < bound && 0 <= j < des.tables@[b].indexes@.len() && !has_matching_index(
            cur.tables@[a].indexes@,
            #[trigger] des.tables@[b].indexes@[j],
        ) ==> creates_index(ops, lo, des.tables@[b].indexes@[j])
    &&& forall|a: int, b: int, i: int|
        #[trigger] common_pair(cur, des, a, b) && b < bound && 0 <= i < cur.tables@[a].indexes@.len() && !has_matching_index(
            des.tables@[b].indexes@,
            #[trigger] cur.tables@[a].indexes@[i],
        ) ==> drops_index(ops, lo, cur.tables@[a].indexes@[i])
}

proof fn lemma_indexes_exact_grow(cur: Schema, des: Schema, o1: Seq<Operation>, o2: Seq<Operation>, lo: int, bound: int)
    requires
        indexes_exact(cur, des, o1, lo, bound),
        0 <= lo,
        o1.len() <= o2.len(),
        forall|k: int| 0 <= k < o1.len() ==> o2[k] == o1[k],
    ensures
        indexes_exact(cur, des, o2, lo, bound),
{
    assert forall|x: Index| #[trigger] creates_index(o1, lo, x) implies creates_index(o2, lo, x) by {
        let k = choose|k: int| lo <= k < o1.len() && creates_idx(#[trigger] o1[k], x);
        assert(o2[k] == o1[k]);
    }
    assert forall|x: Index| #[trigger] drops_index(o1, lo, x) implies drops_index(o2, lo, x) by {
        let k = choose|k: int| lo <= k < o1.len() && drops_idx(#[trigger] o1[k], x);
        assert(o2[k] == o1[k]);
    }
}

/// `ops` creates the new tables in the order `co`, then alters tables and
/// changes indexes, then drops the old tables in the order `dro`; `co` puts each
/// table after the tables it references, `dro` puts each table before the tables
/// it references, and the middle part is empty exactly when the common tables agree.
pub open spec fn migration_plan(
    cur: Schema,
    des: Schema,
    co: Seq<usize>,
    dro: Seq<usize>,
    ops: Seq<Operation>,
) -> bool {
    let nc = co.len() as int;
    let nd = dro.len() as int;
    &&& covers(co, des.tables@, cur.tables@)
    &&& respects(des.tables@, co, false)
    &&& covers(dro, cur.tables@, des.tables@)
    &&& respects(cur.tables@, dro, true)
    &&& least_name_first(des.tables@, co, co, false)
    &&& least_name_first(cur.tables@, dro, dro, true)
    &&& nc + nd <= ops.len()
    &&& forall|i: int|
        0 <= i < nc ==> (#[trigger] ops[i] matches Operation::CreateTable(t) && same_table(
            t,
            des.tables@[co[i] as int],
        ))
    &&& forall|i: int| nc <= i < ops.len() - nd ==> ((#[trigger] ops[i]) is AlterTable || is_index_op(ops[i]))
    &&& forall|i: int| nc <= i < ops.len() - nd ==> alter_for(cur, des, #[trigger] ops[i])
    &&& exists|na: int| #[trigger] alters_exact(cur, des, ops, nc, na, ops.len() - nd)
    &&& indexes_exact(cur, des, ops, nc, des.tables@.len() as int)
    &&& forall|i: int|
        0 <= i < nd ==> drops_table(#[trigger] ops[ops.len() - nd + i], cur.tables@[dro[i] as int])
    &&& (nc + nd == ops.len() <==> common_agree(cur, des))
}

/// `s` is a nonempty set of tables of `ts` that `others` lacks, each of which
/// must come after another member of `s`.
#[verifier::opaque]
pub open spec fn cycle_set(ts: Seq<Table>, others: Seq<Table>, s: Set<int>, rev: bool) -> bool {
    &&& exists|k: int| s.contains(k)
    &&& forall|k: int| s.contains(k) ==> 0 <= k < ts.len() && !has_key(others, #[trigger] ts[k])
    &&& forall|k: int| s.contains(k) ==> exists|m: int| s.contains(m) && #[trigger] edge(ts, k, m, rev)
}

/// `ops` follows a migration plan from `cur` to `des`.
pub open spec fn planned(cur: Schema, des: Schema, ops: Seq<Operation>) -> bool {
    exists|co: Seq<usize>, dro: Seq<usize>| #[trigger] migration_plan(cur, des, co, dro, ops)
}

/// A cycle of foreign keys among the tables of `ts` that `others` lacks.
pub open spec fn new_tables_cycle(ts: Seq<Table>, others: Seq<Table>, rev: bool) -> bool {
    exists|s: Set<int>| #[trigger] cycle_set(ts, others, s, rev)
}

proof fn lemma_closed_to_cycle(ts: Seq<Table>, others: Seq<Table>, members: Seq<usize>, s: Set<int>, rev: bool)
    requires
        covers(members, ts, others),
        crate::order::closed_set(ts, members, s, rev),
    ensures
        cycle_set(ts, others, s, rev),
{
    reveal(closed_set);
    reveal(cycle_set);
    assert forall|k: int| s.contains(k) implies 0 <= k < ts.len() && !has_key(others, #[trigger] ts[k]) by {
        assert(is_member(members, k));
    }
}

proof fn lemma_cycle_to_closed(ts: Seq<Table>, others: Seq<Table>, members: Seq<usize>, s: Set<int>, rev: bool)
    requires
        covers(members, ts, others),
        cycle_set(ts, others, s, rev),
    ensures
        crate::order::closed_set(ts, members, s, rev),
{
    reveal(closed_set);
    reveal(cycle_set);
    assert forall|k: int| s.contains(k) implies is_member(members, k) by {
        assert(!has_key(others, ts[k]));
    }
}

proof fn lemma_blocked_cycle(ts: Seq<Table>, others: Seq<Table>, members: Seq<usize>, rev: bool)
    requires
        covers(members, ts, others),
    ensures
        blocked(ts, members, rev) <==> new_tables_cycle(ts, others, rev),
{
    if blocked(ts, members, rev) {
        let s = choose|s: Set<int>| crate::order::closed_set(ts, members, s, rev);
        lemma_closed_to_cycle(ts, others, members, s, rev);
    }
    if new_tables_cycle(ts, others, rev) {
        let s = choose|s: Set<int>| #[trigger] cycle_set(ts, others, s, rev);
        lemma_cycle_to_closed(ts, others, members, s, rev);
    }
}

/// The positions of the tables of `ts` whose identity `others` lacks.
fn new_tables(ts: &Vec<Table>, others: &Vec<Table>) -> (r: Vec<usize>)
    ensures
        covers(r@, ts@, others@),
        forall|p: int| 0 <= p < r@.len() ==> r@[p] < ts@.len(),
{
    let mut r: Vec<usize> = Vec::new();
    let mut k: usize = 0;
    while k < ts.len()
        invariant
            k <= ts@.len(),
            distinct(r@),
            forall|p: int| 0 <= p < r@.len() ==> r@[p] < k,
            forall|x: int| is_member(r@, x) <==> (0 <= x < k && !has_key(others@, #[trigger] ts@[x])),
        decreases ts@.len() - k,
    {
        let ghost before = r@;
        if find_table(others, &ts[k]).is_none() {
            r.push(k);
            proof {
                assert(r@.last() == k);
                assert forall|x: int| is_member(r@, x) <==> (0 <= x < k + 1 && !has_key(others@, #[trigger] ts@[x])) by {
                    if is_member(r@, x) && x != k {
                        let p = choose|p: int| 0 <= p < r@.len() && r@[p] == x;
                        assert(before[p] == x);
                    }
                    if is_member(before, x) {
                        let p = choose|p: int| 0 <= p < before.len() && before[p] == x;
                        assert(r@[p] == x);
                    }
                    if x == k {
                        assert(r@[before.len() as int] == x);
                    }
                }
            }
        } else {
            proof {
                assert(has_key(others@, ts@[k as int]));
            }
        }
        k = k + 1;
    }
    r
}

} // verus!

verus! {

proof fn lemma_permutation_covers(order: Seq<usize>, members: Seq<usize>, ts: Seq<Table>, others: Seq<Table>)
    requires
        covers(members, ts, others),
        is_permutation(order, members),
    ensures
        covers(order, ts, others),
{
    assert forall|k: int|
        #![trigger is_member(order, k)]
        #![trigger ts[k]]
        is_member(order, k) <==> (0 <= k < ts.len() && !has_key(others, ts[k])) by {
        assert(is_member(order, k) <==> is_member(members, k));
    }
}

proof fn lemma_covers_bound(order: Seq<usize>, ts: Seq<Table>, others: Seq<Table>)
    requires
        covers(order, ts, others),
    ensures
        forall|p: int| 0 <= p < order.len() ==> order[p] < ts.len(),
{
    assert forall|p: int| 0 <= p < order.len() implies order[p] < ts.len() by {
        assert(is_member(order, order[p] as int));
    }
}

/// Appends one `ALTER TABLE` for each table present in both schemas whose
/// columns differ, in order of table name.
fn push_alters(current: &Schema, desired: &Schema, ops: &mut Vec<Operation>)
    requires
        well_formed(*current),
        well_formed(*desired),
    ensures
        final(ops)@.len() >= old(ops)@.len(),
        forall|k: int| 0 <= k < old(ops)@.len() ==> final(ops)@[k] == old(ops)@[k],
        forall|k: int| old(ops)@.len() <= k < final(ops)@.len() ==> (#[trigger] final(ops)@[k]) is AlterTable,
        forall|k: int| old(ops)@.len() <= k < final(ops)@.len() ==> alter_for(*current, *desired, #[trigger] final(ops)@[k]),
        alters_exact(*current, *desired, final(ops)@, old(ops)@.len() as int, final(ops)@.len() as int, final(ops)@.len() as int),
        final(ops)@.len() == old(ops)@.len() <==> forall|a: int, b2: int|
            0 <= a < current.tables@.len() && 0 <= b2 < desired.tables@.len() && key_eq(
                #[trigger] current.tables@[a],
                #[trigger] desired.tables@[b2],
            ) ==> columns_agree(current.tables@[a], desired.tables@[b2]),
{
    let ghost start = ops@;
    let ghost nc = start.len() as int;
    let start_len = ops.len();
    let mut b: usize = 0;
    while b < desired.tables.len()
        invariant
            b <= desired.tables@.len(),
            well_formed(*current),
            well_formed(*desired),
            ops@.len() >= nc,
            nc == start.len(),
            start_len == nc,
            forall|k: int| 0 <= k < nc ==> ops@[k] == start[k],
            forall|k1: int, k2: int|
                nc <= k1 < k2 < ops@.len() ==> !name_lt(alter_key(#[trigger] ops@[k2]).1, alter_key(#[trigger] ops@[k1]).1),
            forall|k: int| nc <= k < ops@.len() ==> (#[trigger] ops@[k]) is AlterTable,
            forall|k: int| nc <= k < ops@.len() ==> alter_for(*current, *desired, #[trigger] ops@[k]),
            forall|k1: int, k2: int|
                nc <= k1 < ops@.len() && nc <= k2 < ops@.len() && k1 != k2 ==> alter_key(#[trigger] ops@[k1])
                    != alter_key(#[trigger] ops@[k2]),
            forall|k: int|
                nc <= k < ops@.len() ==> exists|b2: int|
                    0 <= b2 < b && alter_key(#[trigger] ops@[k]) == (opt_view(&desired.tables@[b2].schema), desired.tables@[b2].name@),
            forall|a: int, b2: int|
                #[trigger] common_pair(*current, *desired, a, b2) && b2 < b && !columns_agree(current.tables@[a], desired.tables@[b2])
                    ==> has_alter(ops@, nc, ops@.len() as int, desired.tables@[b2]),
            ops@.len() == nc <==> forall|a: int, b2: int|
                0 <= a < current.tables@.len() && 0 <= b2 < b && key_eq(
                    #[trigger] current.tables@[a],
                    #[trigger] desired.tables@[b2],
                ) ==> columns_agree(current.tables@[a], desired.tables@[b2]),
        decreases desired.tables@.len() - b,
    {
        let d = &desired.tables[b];
        match find_table(&current.tables, d) {
            None => {},
            Some(a) => {
                let acts = diff_columns(&current.tables[a], d);
                if acts.len() > 0 {
                    let o = Operation::AlterTable(copy_opt_str(&d.schema), copy_str(&d.name), acts);
                    assert(common_pair(*current, *desired, a as int, b as int));
                    assert(alter_for(*current, *desired, o));
                    let mut p: usize = start_len;
                    let mut stop = false;
                    while p < ops.len() && !stop
                        invariant
                            nc == start_len,
                            nc <= p <= ops@.len(),
                            forall|k: int| nc <= k < ops@.len() ==> (#[trigger] ops@[k]) is AlterTable,
                            forall|k: int| nc <= k < p ==> !name_lt(d.name@, alter_key(#[trigger] ops@[k]).1),
                            stop ==> p < ops@.len() && name_lt(d.name@, alter_key(ops@[p as int]).1),
                        decreases ops@.len() - p, !stop as int,
                    {
                        let later = match &ops[p] {
                            Operation::AlterTable(_, n, _) => crate::order::name_before(d.name.as_str(), n.as_str()),
                            _ => false,
                        };
                        if later {
                            stop = true;
                        } else {
                            p = p + 1;
                        }
                    }
                    let ghost before = ops@;
                    ops.insert(p, o);
                    proof {
                        assert forall|k: int| 0 <= k < ops@.len() implies (k < p ==> ops@[k] == before[k]) && (k
                            > p ==> ops@[k] == before[k - 1]) && (k == p ==> ops@[k] == o) by {}
                        let okey = (opt_view(&desired.tables@[b as int].schema), desired.tables@[b as int].name@);
                        assert(alter_key(o) == okey);
                        assert forall|k: int| nc <= k < before.len() implies alter_key(#[trigger] before[k]) != okey by {
                            let b2 = choose|b2: int|
                                0 <= b2 < b && alter_key(#[trigger] before[k]) == (opt_view(&desired.tables@[b2].schema), desired.tables@[b2].name@);
                            assert(!key_eq(desired.tables@[b2], desired.tables@[b as int]));
                        }
                        assert forall|k1: int, k2: int|
                            nc <= k1 < ops@.len() && nc <= k2 < ops@.len() && k1 != k2 implies alter_key(#[trigger] ops@[k1])
                                != alter_key(#[trigger] ops@[k2]) by {
                            let i1 = if k1 < p { k1 } else if k1 > p { k1 - 1 } else { -1 };
                            let i2 = if k2 < p { k2 } else if k2 > p { k2 - 1 } else { -1 };
                            if i1 >= 0 && i2 >= 0 {
                                assert(ops@[k1] == before[i1] && ops@[k2] == before[i2]);
                            } else if i1 >= 0 {
                                assert(ops@[k1] == before[i1]);
                            } else if i2 >= 0 {
                                assert(ops@[k2] == before[i2]);
                            }
                        }
                        assert forall|k: int| nc <= k < ops@.len() implies exists|b2: int|
                            0 <= b2 < b + 1 && alter_key(#[trigger] ops@[k]) == (opt_view(&desired.tables@[b2].schema), desired.tables@[b2].name@) by {
                            if k < p {
                                assert(ops@[k] == before[k]);
                            } else if k > p {
                                assert(ops@[k] == before[k - 1]);
                            } else {
                                assert(alter_key(ops@[k]) == okey);
                            }
                        }
                        assert forall|t: Table| has_alter(before, nc, before.len() as int, t) implies has_alter(ops@, nc, ops@.len() as int, t) by {
                            let k = choose|k: int| nc <= k < before.len() && alters_table(#[trigger] before[k], t);
                            if k < p {
                                assert(ops@[k] == before[k]);
                            } else {
                                assert(ops@[k + 1] == before[k]);
                            }
                        }
                        assert(alters_table(ops@[p as int], desired.tables@[b as int]));
                        assert forall|k1: int, k2: int|
                            nc <= k1 < k2 < ops@.len() implies !name_lt(alter_key(#[trigger] ops@[k2]).1, alter_key(#[trigger] ops@[k1]).1) by {
                            let dn = desired.tables@[b as int].name@;
                            if k2 < p {
                                assert(ops@[k1] == before[k1] && ops@[k2] == before[k2]);
                            } else if k2 == p {
                                assert(ops@[k1] == before[k1]);
                            } else if k1 > p {
                                assert(ops@[k1] == before[k1 - 1] && ops@[k2] == before[k2 - 1]);
                            } else if k1 < p {
                                assert(ops@[k1] == before[k1] && ops@[k2] == before[k2 - 1]);
                            } else {
                                assert(ops@[k2] == before[k2 - 1]);
                                let x = alter_key(before[p as int]).1;
                                let y = alter_key(before[k2 - 1]).1;
                                assert(name_lt(dn, x));
                                if name_lt(y, dn) {
                                    lemma_name_lt_trans(y, dn, x, 0);
                                    if k2 - 1 == p {
                                        lemma_name_lt_asym(y, x, 0);
                                    }
                                }
                            }
                        }
                    }
                }
                proof {
                    assert forall|a2: int|
                        0 <= a2 < current.tables@.len() && key_eq(current.tables@[a2], desired.tables@[b as int])
                            implies a2 == a by {
                        if a2 != a {
                            assert(key_eq(current.tables@[a as int], current.tables@[a2]));
                        }
                    }
                }
            },
        }
        b = b + 1;
    }
}

/// Appends the index operations of every table present in both schemas, after
/// the `ALTER TABLE`s that `ops` already holds from `nc` on.
fn push_index_ops(current: &Schema, desired: &Schema, ops: &mut Vec<Operation>, nc: Ghost<int>)
    requires
        well_formed(*current),
        well_formed(*desired),
        0 <= nc@ <= old(ops)@.len(),
        alters_exact(*current, *desired, old(ops)@, nc@, old(ops)@.len() as int, old(ops)@.len() as int),
        forall|k: int| nc@ <= k < old(ops)@.len() ==> ((#[trigger] old(ops)@[k]) is AlterTable || is_index_op(old(ops)@[k])),
        forall|k: int| nc@ <= k < old(ops)@.len() ==> alter_for(*current, *desired, #[trigger] old(ops)@[k]),
    ensures
        final(ops)@.len() >= old(ops)@.len(),
        forall|k: int| 0 <= k < old(ops)@.len() ==> final(ops)@[k] == old(ops)@[k],
        alters_exact(*current, *desired, final(ops)@, nc@, old(ops)@.len() as int, final(ops)@.len() as int),
        indexes_exact(*current, *desired, final(ops)@, nc@, desired.tables@.len() as int),
        forall|k: int| nc@ <= k < final(ops)@.len() ==> ((#[trigger] final(ops)@[k]) is AlterTable || is_index_op(final(ops)@[k])),
        forall|k: int| nc@ <= k < final(ops)@.len() ==> alter_for(*current, *desired, #[trigger] final(ops)@[k]),
        final(ops)@.len() == old(ops)@.len() <==> forall|a: int, b2: int|
            0 <= a < current.tables@.len() && 0 <= b2 < desired.tables@.len() && key_eq(
                #[trigger] current.tables@[a],
                #[trigger] desired.tables@[b2],
            ) ==> indexes_agree(current.tables@[a], desired.tables@[b2]),
{
    let ghost n_alter = ops@.len();
    let ghost nc = nc@;
    let ghost start = ops@;
    let mut b: usize = 0;
    while b < desired.tables.len()
        invariant
            b <= desired.tables@.len(),
            well_formed(*current),
            well_formed(*desired),
            ops@.len() >= n_alter,
            n_alter >= nc,
            alters_exact(*current, *desired, ops@, nc, n_alter as int, ops@.len() as int),
            indexes_exact(*current, *desired, ops@, nc, b as int),
            0 <= nc,
            n_alter == start.len(),
            forall|k: int| 0 <= k < n_alter ==> ops@[k] == start[k],
            forall|k: int| nc <= k < ops@.len() ==> ((#[trigger] ops@[k]) is AlterTable || is_index_op(ops@[k])),
            forall|k: int| nc <= k < ops@.len() ==> alter_for(*current, *desired, #[trigger] ops@[k]),
            ops@.len() == n_alter <==> forall|a: int, b2: int|
                0 <= a < current.tables@.len() && 0 <= b2 < b && key_eq(
                    #[trigger] current.tables@[a],
                    #[trigger] desired.tables@[b2],
                ) ==> indexes_agree(current.tables@[a], desired.tables@[b2]),
        decreases desired.tables@.len() - b,
    {
        let d = &desired.tables[b];
        let ghost before = ops@;
        match find_table(&current.tables, d) {
            None => {},
            Some(a) => {
                assert(unique_names(current.tables@[a as int]));
                diff_indexes(&current.tables[a], d, ops);
                proof {
                    assert forall|k: int| 0 <= k < before.len() implies ops@[k] == before[k] by {
                        assert(ops@.subrange(0, before.len() as int)[k] == ops@[k]);
                    }
                    lemma_alters_extend(*current, *desired, before, ops@, nc, n_alter as int, before.len() as int, ops@.len() as int);
                    lemma_indexes_exact_grow(*current, *desired, before, ops@, nc, b as int);
                    assert forall|x: Index| #[trigger] creates_index(ops@, before.len() as int, x) implies creates_index(ops@, nc, x) by {
                        let k = choose|k: int| before.len() <= k < ops@.len() && creates_idx(#[trigger] ops@[k], x);
                    }
                    assert forall|x: Index| #[trigger] drops_index(ops@, before.len() as int, x) implies drops_index(ops@, nc, x) by {
                        let k = choose|k: int| before.len() <= k < ops@.len() && drops_idx(#[trigger] ops@[k], x);
                    }
                    assert forall|a2: int, b2: int, j2: int|
                        #[trigger] common_pair(*current, *desired, a2, b2) && b2 < b + 1 && 0 <= j2 < desired.tables@[b2].indexes@.len()
                            && !has_matching_index(current.tables@[a2].indexes@, #[trigger] desired.tables@[b2].indexes@[j2])
                            implies creates_index(ops@, nc, desired.tables@[b2].indexes@[j2]) by {
                        if b2 == b {
                            if a2 != a {
                                assert(key_eq(current.tables@[a as int], current.tables@[a2]));
                            }
                        }
                    }
                    assert forall|a2: int, b2: int, i2: int|
                        #[trigger] common_pair(*current, *desired, a2, b2) && b2 < b + 1 && 0 <= i2 < current.tables@[a2].indexes@.len()
                            && !has_matching_index(desired.tables@[b2].indexes@, #[trigger] current.tables@[a2].indexes@[i2])
                            implies drops_index(ops@, nc, current.tables@[a2].indexes@[i2]) by {
                        if b2 == b {
                            if a2 != a {
                                assert(key_eq(current.tables@[a as int], current.tables@[a2]));
                            }
                        }
                    }
                    assert forall|k: int| nc <= k < ops@.len() implies ((#[trigger] ops@[k]) is AlterTable || is_index_op(ops@[k])) && alter_for(*current, *desired, ops@[k]) by {
                        if k < before.len() {
                            assert(ops@[k] == before[k]);
                        } else {
                            assert(common_pair(*current, *desired, a as int, b as int));
                            assert(index_justified(ops@[k], current.tables@[a as int], desired.tables@[b as int]));
                        }
                    }
                    assert forall|k: int| 0 <= k < n_alter implies ops@[k] == start[k] by {
                        assert(ops@[k] == before[k]);
                    }
                    assert forall|a2: int|
                        0 <= a2 < current.tables@.len() && key_eq(current.tables@[a2], desired.tables@[b as int])
                            implies a2 == a by {
                        if a2 != a {
                            assert(key_eq(current.tables@[a as int], current.tables@[a2]));
                        }
                    }
                }
            },
        }
        b = b + 1;
    }
}

/// The operations that turn `current` into `desired`.
pub fn migrate(current: Schema, desired: Schema, options: &MigrationOptions) -> (r: Result<Migration, MigrateError>)
    requires
        well_formed(current),
        well_formed(desired),
    ensures
        (r matches Err(e) && e == MigrateError::UnknownReference) <==> unknown_reference(desired),
        (r matches Err(e) && e == MigrateError::DestructiveChangeRejected) <==> !unknown_reference(desired)
            && !options.allow_destructive && needs_drop(current, desired),
        (r matches Err(e) && e == MigrateError::DependencyCycle) <==> !unknown_reference(desired) && !(
        !options.allow_destructive && needs_drop(current, desired)) && (new_tables_cycle(
            desired.tables@,
            current.tables@,
            false,
        ) || new_tables_cycle(current.tables@, desired.tables@, true)),
        r matches Ok(m) ==> planned(current, desired, m.operations@),
{
    if !references_resolve(&desired) {
        return Err(MigrateError::UnknownReference);
    }
    if !options.allow_destructive && drop_required(&current, &desired) {
        return Err(MigrateError::DestructiveChangeRejected);
    }
    let created = new_tables(&desired.tables, &current.tables);
    let dropped = new_tables(&current.tables, &desired.tables);
    proof {
        lemma_blocked_cycle(desired.tables@, current.tables@, created@, false);
        lemma_blocked_cycle(current.tables@, desired.tables@, dropped@, true);
    }
    let co = match order_tables(&desired.tables, &created, false) {
        Some(o) => o,
        None => return Err(MigrateError::DependencyCycle),
    };
    let dro = match order_tables(&current.tables, &dropped, true) {
        Some(o) => o,
        None => return Err(MigrateError::DependencyCycle),
    };
    proof {
        lemma_permutation_covers(co@, created@, desired.tables@, current.tables@);
        lemma_least_members(desired.tables@, created@, co@, co@, false);
        lemma_least_members(current.tables@, dropped@, dro@, dro@, true);
        lemma_permutation_covers(dro@, dropped@, current.tables@, desired.tables@);
        lemma_covers_bound(co@, desired.tables@, current.tables@);
        lemma_covers_bound(dro@, current.tables@, desired.tables@);
    }
    let ghost nc = co@.len() as int;
    let mut ops: Vec<Operation> = Vec::new();
    let mut i: usize = 0;
    while i < co.len()
        invariant
            i <= co@.len(),
            ops@.len() == i,
            forall|p: int| 0 <= p < co@.len() ==> co@[p] < desired.tables@.len(),
            forall|k: int|
                0 <= k < i ==> (#[trigger] ops@[k] matches Operation::CreateTable(t) && same_table(
                    t,
                    desired.tables@[co@[k] as int],
                )),
        decreases co@.len() - i,
    {
        ops.push(Operation::CreateTable(desired.tables[co[i]].duplicate()));
        i = i + 1;
    }
    let ghost before_alt = ops@;
    push_alters(&current, &desired, &mut ops);
    assert forall|k: int| 0 <= k < nc implies (#[trigger] ops@[k] matches Operation::CreateTable(t) && same_table(
        t,
        desired.tables@[co@[k] as int],
    )) by {
        assert(ops@[k] == before_alt[k]);
    }
    let ghost n_alter = ops@.len();
    let ghost before_idx = ops@;
    assert(alters_exact(current, desired, ops@, nc, n_alter as int, n_alter as int));
    push_index_ops(&current, &desired, &mut ops, Ghost(nc));
    assert forall|k: int| 0 <= k < nc implies (#[trigger] ops@[k] matches Operation::CreateTable(t) && same_table(
        t,
        desired.tables@[co@[k] as int],
    )) by {
        assert(ops@[k] == before_idx[k]);
    }
    let ghost n_mid = ops@.len();
    let mut i: usize = 0;
    while i < dro.len()
        invariant
            i <= dro@.len(),
            ops@.len() == n_mid + i,
            n_mid >= nc,
            nc == co@.len(),
            forall|p: int| 0 <= p < co@.len() ==> co@[p] < desired.tables@.len(),
            forall|p: int| 0 <= p < dro@.len() ==> dro@[p] < current.tables@.len(),
            forall|k: int|
                0 <= k < nc ==> (#[trigger] ops@[k] matches Operation::CreateTable(t) && same_table(
                    t,
                    desired.tables@[co@[k] as int],
                )),
            forall|k: int| nc <= k < n_mid ==> ((#[trigger] ops@[k]) is AlterTable || is_index_op(ops@[k])),
            forall|k: int| nc <= k < n_mid ==> alter_for(current, desired, #[trigger] ops@[k]),
            forall|k: int| 0 <= k < i ==> drops_table(#[trigger] ops@[n_mid + k], current.tables@[dro@[k] as int]),
            alters_exact(current, desired, ops@, nc, n_alter as int, n_mid as int),
            indexes_exact(current, desired, ops@, nc, desired.tables@.len() as int),
            n_alter <= n_mid,
        decreases dro@.len() - i,
    {
        let t = &current.tables[dro[i]];
        let ghost before = ops@;
        ops.push(Operation::DropTable(copy_opt_str(&t.schema), copy_str(&t.name)));
        proof {
            lemma_alters_extend(current, desired, before, ops@, nc, n_alter as int, n_mid as int, n_mid as int);
            lemma_indexes_exact_grow(current, desired, before, ops@, nc, desired.tables@.len() as int);
        }
        i = i + 1;
    }
    proof {
        assert(forall|p: int| 0 <= p < co@.len() ==> co@[p] < desired.tables@.len());
        assert forall|k: int| 0 <= k < dro@.len() implies drops_table(#[trigger] ops@[ops@.len() - dro@.len() + k], current.tables@[dro@[k] as int]) by {
            assert(ops@.len() - dro@.len() + k == n_mid + k);
        }
        assert(ops@.len() - dro@.len() == n_mid);
        assert(alters_exact(current, desired, ops@, nc, n_alter as int, ops@.len() - dro@.len()));
        assert(migration_plan(current, desired, co@, dro@, ops@));
    }
    let m = Migration { operations: ops };
    assert(planned(current, desired, m.operations@));
    Ok(m)
}

} // verus!

verus! {

impl Schema {
    /// The operations that turn this schema into `desired`.
    pub fn migrate_to(self, desired: Schema, options: &MigrationOptions) -> (r: Result<Migration, MigrateError>)
        requires
            well_formed(self),
            well_formed(desired),
        ensures
            (r matches Err(e) && e == MigrateError::UnknownReference) <==> unknown_reference(desired),
            (r matches Err(e) && e == MigrateError::DestructiveChangeRejected) <==> !unknown_reference(desired)
                && !options.allow_destructive && needs_drop(self, desired),
            (r matches Err(e) && e == MigrateError::DependencyCycle) <==> !unknown_reference(desired) && !(
            !options.allow_destructive && needs_drop(self, desired)) && (new_tables_cycle(
                desired.tables@,
                self.tables@,
                false,
            ) || new_tables_cycle(self.tables@, desired.tables@, true)),
            r matches Ok(m) ==> planned(self, desired, m.operations@),
    {
        migrate(self, desired, options)
    }
}

} // verus!

verus! {

fn names_unique(t: &Table) -> (r: bool)
    ensures
        r == unique_names(*t),
{
    let mut i: usize = 0;
    while i < t.columns.len()
        invariant
            i <= t.columns@.len(),
            forall|a: int, b: int|
                0 <= a < i && 0 <= b < t.columns@.len() && a != b ==> (#[trigger] t.columns@[a]).name@
                    != (#[trigger] t.columns@[b]).name@,
        decreases t.columns@.len() - i,
    {
        let mut j: usize = 0;
        while j < t.columns.len()
            invariant
                i < t.columns@.len(),
                j <= t.columns@.len(),
                forall|a: int, b: int|
                    0 <= a < i && 0 <= b < t.columns@.len() && a != b ==> (#[trigger] t.columns@[a]).name@
                        != (#[trigger] t.columns@[b]).name@,
                forall|b: int| 0 <= b < j && b != i ==> t.columns@[i as int].name@ != (#[trigger] t.columns@[b]).name@,
            decreases t.columns@.len() - j,
        {
            if j != i && str_eq(t.columns[i].name.as_str(), t.columns[j].name.as_str()) {
                return false;
            }
            j = j + 1;
        }
        i = i + 1;
    }
    let mut i: usize = 0;
    while i < t.indexes.len()
        invariant
            i <= t.indexes@.len(),
            forall|a: int, b: int|
                0 <= a < t.columns@.len() && 0 <= b < t.columns@.len() && a != b ==> (#[trigger] t.columns@[a]).name@
                    != (#[trigger] t.columns@[b]).name@,
            forall|a: int, b: int|
                0 <= a < i && 0 <= b < t.indexes@.len() && a != b ==> (#[trigger] t.indexes@[a]).name@
                    != (#[trigger] t.indexes@[b]).name@,
        decreases t.indexes@.len() - i,
    {
        let mut j: usize = 0;
        while j < t.indexes.len()
            invariant
                i < t.indexes@.len(),
                j <= t.indexes@.len(),
                forall|a: int, b: int|
                    0 <= a < i && 0 <= b < t.indexes@.len() && a != b ==> (#[trigger] t.indexes@[a]).name@
                        != (#[trigger] t.indexes@[b]).name@,
                forall|b: int| 0 <= b < j && b != i ==> t.indexes@[i as int].name@ != (#[trigger] t.indexes@[b]).name@,
            decreases t.indexes@.len() - j,
        {
            if j != i && str_eq(t.indexes[i].name.as_str(), t.indexes[j].name.as_str()) {
                return false;
            }
            j = j + 1;
        }
        i = i + 1;
    }
    true
}

/// Whether no two tables of `s` share an identity and, within each table, no
/// two columns and no two indexes share a name.
pub fn is_well_formed(s: &Schema) -> (r: bool)
    ensures
        r == well_formed(*s),
{
    let n = s.tables.len();
    let mut i: usize = 0;
    while i < n
        invariant
            n == s.tables@.len(),
            i <= n,
            forall|a: int| 0 <= a < i ==> unique_names(#[trigger] s.tables@[a]),
            forall|a: int, b: int|
                0 <= a < i && 0 <= b < n && a != b ==> !key_eq(#[trigger] s.tables@[a], #[trigger] s.tables@[b]),
        decreases n - i,
    {
        if !names_unique(&s.tables[i]) {
            return false;
        }
        let mut j: usize = 0;
        while j < n
            invariant
                n == s.tables@.len(),
                i < n,
                j <= n,
                forall|a: int, b: int|
                    0 <= a < i && 0 <= b < n && a != b ==> !key_eq(#[trigger] s.tables@[a], #[trigger] s.tables@[b]),
                forall|b: int| 0 <= b < j && b != i ==> !key_eq(s.tables@[i as int], #[trigger] s.tables@[b]),
            decreases n - j,
        {
            if j != i && opt_str_eq(&s.tables[i].schema, &s.tables[j].schema) && str_eq(
                s.tables[i].name.as_str(),
                s.tables[j].name.as_str(),
            ) {
                return false;
            }
            j = j + 1;
        }
        i = i + 1;
    }
    true
}

} // verus!
