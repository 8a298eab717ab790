//! Properties of migrations, stated over the engine's contracts and proved.
use crate::migrate::{
    column_unchanged, columns_agree, common_agree, cycle_set, drops_table, has_column_named, has_index_named,
    has_key, has_matching_column, has_matching_index, indexes_agree, is_index_op, key_eq, migration_plan,
    needs_drop, new_tables_cycle, planned, well_formed,
};
use crate::operation::Operation;
use crate::order::{column_targets, edge, is_member, references};
use crate::schema::{same_table, Schema, Table};
use vstd::prelude::*;

verus! {

/// `o` creates a table with the namespace, name, columns and indexes of `t`.
pub open spec fn creates(o: Operation, t: Table) -> bool {
    o matches Operation::CreateTable(x) && same_table(x, t)
}

/// Some operation of `ops` creates `t`.
pub open spec fn created_by(ops: Seq<Operation>, t: Table) -> bool {
    exists|i: int| 0 <= i < ops.len() && #[trigger] creates(ops[i], t)
}

proof fn lemma_references_congruent(t1: Table, t2: Table, a: Table, b: Table)
    requires
        same_table(t1, a),
        same_table(t2, b),
    ensures
        references(t1, t2) <==> references(a, b),
{
    if references(t1, t2) {
        let i = choose|i: int| 0 <= i < t1.columns@.len() && column_targets(#[trigger] t1.columns@[i], t2.name@);
        assert(crate::schema::same_column(t1.columns@[i], a.columns@[i]));
        assert(column_targets(a.columns@[i], b.name@));
    }
    if references(a, b) {
        let i = choose|i: int| 0 <= i < a.columns@.len() && column_targets(#[trigger] a.columns@[i], b.name@);
        assert(crate::schema::same_column(t1.columns@[i], a.columns@[i]));
        assert(column_targets(t1.columns@[i], t2.name@));
    }
}

/// Diffing a schema against itself asks for no drops, meets no cycle, and
/// yields no operations.
pub proof fn lemma_self_migration_empty(s: Schema, ops: Seq<Operation>)
    requires
        well_formed(s),
    ensures
        !needs_drop(s, s),
        !new_tables_cycle(s.tables@, s.tables@, false),
        !new_tables_cycle(s.tables@, s.tables@, true),
        planned(s, s, ops) ==> ops.len() == 0,
{
    assert forall|k: int| 0 <= k < s.tables@.len() implies has_key(s.tables@, #[trigger] s.tables@[k]) by {
        assert(key_eq(s.tables@[k], s.tables@[k]));
    }
    assert forall|a: int, b: int|
        0 <= a < s.tables@.len() && 0 <= b < s.tables@.len() && key_eq(#[trigger] s.tables@[a], #[trigger] s.tables@[b])
            implies !crate::migrate::drops_column(s.tables@[a], s.tables@[b]) && columns_agree(s.tables@[a], s.tables@[b])
            && indexes_agree(s.tables@[a], s.tables@[b]) by {
        assert(a == b);
        let t = s.tables@[a];
        assert forall|i: int| 0 <= i < t.columns@.len() implies has_column_named(t.columns@, #[trigger] t.columns@[i].name@) by {
        }
        assert forall|j: int| 0 <= j < t.columns@.len() implies has_matching_column(t.columns@, #[trigger] t.columns@[j]) by {
            assert(column_unchanged(t.columns@[j], t.columns@[j]));
        }
        assert forall|j: int| 0 <= j < t.indexes@.len() implies has_matching_index(t.indexes@, #[trigger] t.indexes@[j]) by {
            assert(t.indexes@[j].same_spec(&t.indexes@[j]));
        }
        assert forall|i: int| 0 <= i < t.indexes@.len() implies has_index_named(t.indexes@, #[trigger] t.indexes@[i].name@) by {
        }
    }
    assert(common_agree(s, s));
    assert(!new_tables_cycle(s.tables@, s.tables@, false)) by {
        if new_tables_cycle(s.tables@, s.tables@, false) {
            let c = choose|c: Set<int>| #[trigger] cycle_set(s.tables@, s.tables@, c, false);
            reveal(cycle_set);
            let k = choose|k: int| c.contains(k);
        }
    }
    assert(!new_tables_cycle(s.tables@, s.tables@, true)) by {
        if new_tables_cycle(s.tables@, s.tables@, true) {
            let c = choose|c: Set<int>| #[trigger] cycle_set(s.tables@, s.tables@, c, true);
            reveal(cycle_set);
            let k = choose|k: int| c.contains(k);
        }
    }
    if planned(s, s, ops) {
        let (co, dro) = choose|co: Seq<usize>, dro: Seq<usize>| #[trigger] migration_plan(s, s, co, dro, ops);
        if co.len() > 0 {
            assert(is_member(co, co[0] as int));
        }
        if dro.len() > 0 {
            assert(is_member(dro, dro[0] as int));
        }
    }
}

proof fn lemma_plan_regions(cur: Schema, des: Schema, co: Seq<usize>, dro: Seq<usize>, ops: Seq<Operation>, i: int)
    requires
        migration_plan(cur, des, co, dro, ops),
        0 <= i < ops.len(),
    ensures
        ops[i] is CreateTable ==> i < co.len(),
        ops[i] is DropTable ==> i >= ops.len() - dro.len(),
{
    if co.len() <= i < ops.len() - dro.len() {
        assert(ops[i] is AlterTable || is_index_op(ops[i]));
    }
    if i >= ops.len() - dro.len() {
        assert(drops_table(ops[ops.len() - dro.len() + (i - (ops.len() - dro.len()))], cur.tables@[dro[i - (ops.len() - dro.len())] as int]));
    }
}

/// When two new tables are created and the first references the second, the
/// second is created first.
pub proof fn lemma_created_after_referenced(cur: Schema, des: Schema, ops: Seq<Operation>, i: int, j: int)
    requires
        planned(cur, des, ops),
        0 <= i < ops.len(),
        0 <= j < ops.len(),
        ops[i] is CreateTable,
        ops[j] is CreateTable,
        references(ops[i]->CreateTable_0, ops[j]->CreateTable_0),
    ensures
        j < i,
{
    let (co, dro) = choose|co: Seq<usize>, dro: Seq<usize>| #[trigger] migration_plan(cur, des, co, dro, ops);
    lemma_plan_regions(cur, des, co, dro, ops, i);
    lemma_plan_regions(cur, des, co, dro, ops, j);
    assert(ops[i] matches Operation::CreateTable(t) && same_table(t, des.tables@[co[i] as int]));
    assert(ops[j] matches Operation::CreateTable(t) && same_table(t, des.tables@[co[j] as int]));
    lemma_references_congruent(ops[i]->CreateTable_0, ops[j]->CreateTable_0, des.tables@[co[i] as int], des.tables@[co[j] as int]);
    assert(edge(des.tables@, co[i] as int, co[j] as int, false));
}

/// When two old tables are dropped and the first references the second, the
/// first is dropped first.
pub proof fn lemma_referencing_dropped_first(cur: Schema, des: Schema, ops: Seq<Operation>, i: int, j: int, a: int, b: int)
    requires
        well_formed(cur),
        planned(cur, des, ops),
        0 <= i < ops.len(),
        0 <= j < ops.len(),
        0 <= a < cur.tables@.len(),
        0 <= b < cur.tables@.len(),
        drops_table(ops[i], cur.tables@[a]),
        drops_table(ops[j], cur.tables@[b]),
        references(cur.tables@[a], cur.tables@[b]),
    ensures
        i < j,
{
    let (co, dro) = choose|co: Seq<usize>, dro: Seq<usize>| #[trigger] migration_plan(cur, des, co, dro, ops);
    lemma_plan_regions(cur, des, co, dro, ops, i);
    lemma_plan_regions(cur, des, co, dro, ops, j);
    let base = ops.len() - dro.len();
    let xi = i - base;
    let xj = j - base;
    assert(drops_table(ops[base + xi], cur.tables@[dro[xi] as int]));
    assert(drops_table(ops[base + xj], cur.tables@[dro[xj] as int]));
    assert(is_member(dro, dro[xi] as int));
    assert(is_member(dro, dro[xj] as int));
    if dro[xi] as int != a {
        assert(key_eq(cur.tables@[a], cur.tables@[dro[xi] as int]));
    }
    if dro[xj] as int != b {
        assert(key_eq(cur.tables@[b], cur.tables@[dro[xj] as int]));
    }
    assert(edge(cur.tables@, dro[xj] as int, dro[xi] as int, true));
}

/// From a schema with no tables, the operations create each table of `des`
/// once, with its columns and indexes, and do nothing else.
pub proof fn lemma_from_empty(cur: Schema, des: Schema, ops: Seq<Operation>)
    requires
        cur.tables@.len() == 0,
        planned(cur, des, ops),
    ensures
        ops.len() == des.tables@.len(),
        forall|i: int| 0 <= i < ops.len() ==> (#[trigger] ops[i]) is CreateTable,
        forall|k: int| 0 <= k < des.tables@.len() ==> #[trigger] created_by(ops, des.tables@[k]),
{
    let (co, dro) = choose|co: Seq<usize>, dro: Seq<usize>| #[trigger] migration_plan(cur, des, co, dro, ops);
    if dro.len() > 0 {
        assert(is_member(dro, dro[0] as int));
    }
    assert(common_agree(cur, des));
    let all = Seq::new(des.tables@.len(), |k: int| k as usize);
    assert forall|k: int| 0 <= k < des.tables@.len() implies is_member(co, k) by {
        assert(!has_key(cur.tables@, des.tables@[k]));
    }
    assert forall|p: int| 0 <= p < all.len() implies is_member(co, #[trigger] all[p] as int) by {
        assert(is_member(co, p));
        let q = choose|q: int| 0 <= q < co.len() && co[q] == p;
        assert(all[p] as int == p);
    }
    assert forall|x: int, y: int| 0 <= x < all.len() && 0 <= y < all.len() && x != y implies all[x] != all[y] by {
        assert(is_member(co, x));
        assert(is_member(co, y));
        let qx = choose|q: int| 0 <= q < co.len() && co[q] == x;
        let qy = choose|q: int| 0 <= q < co.len() && co[q] == y;
    }
    assert forall|j: int| 0 <= j < co.len() implies is_member(all, #[trigger] co[j] as int) by {
        assert(is_member(co, co[j] as int));
        assert(all[co[j] as int] == co[j]);
    }
    crate::order::lemma_distinct_len(co, all);
    assert forall|k: int| 0 <= k < des.tables@.len() implies #[trigger] created_by(ops, des.tables@[k]) by {
        assert(is_member(co, k));
        let i = choose|i: int| 0 <= i < co.len() && co[i] == k;
        assert(ops[i] matches Operation::CreateTable(t) && same_table(t, des.tables@[co[i] as int]));
        assert(creates(ops[i], des.tables@[k]));
    }
}

} // verus!

verus! {

/// When the migration between two schemas has no operations, every table of
/// each schema has its identity in the other, and the tables present in both
/// agree in columns and indexes.
pub proof fn lemma_empty_migration_means_agreement(cur: Schema, des: Schema, ops: Seq<Operation>)
    requires
        planned(cur, des, ops),
        ops.len() == 0,
    ensures
        forall|k: int| 0 <= k < des.tables@.len() ==> has_key(cur.tables@, #[trigger] des.tables@[k]),
        forall|k: int| 0 <= k < cur.tables@.len() ==> has_key(des.tables@, #[trigger] cur.tables@[k]),
        common_agree(cur, des),
{
    let (co, dro) = choose|co: Seq<usize>, dro: Seq<usize>| #[trigger] migration_plan(cur, des, co, dro, ops);
    assert forall|k: int| 0 <= k < des.tables@.len() implies has_key(cur.tables@, #[trigger] des.tables@[k]) by {
        if !has_key(cur.tables@, des.tables@[k]) {
            assert(is_member(co, k));
        }
    }
    assert forall|k: int| 0 <= k < cur.tables@.len() implies has_key(des.tables@, #[trigger] cur.tables@[k]) by {
        if !has_key(des.tables@, cur.tables@[k]) {
            assert(is_member(dro, k));
        }
    }
}

} // verus!
