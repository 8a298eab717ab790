//! Ordering tables so that foreign-key dependencies come first, with cycle detection.
use crate::schema::{constraint_key, Column, Table};
use crate::util::str_eq;
use vstd::prelude::*;

verus! {

/// The column has a foreign key into the table named `name`.
pub open spec fn column_targets(c: Column, name: Seq<char>) -> bool {
    match c.constraint {
        Some(k) => constraint_key(k).0 == name,
        None => false,
    }
}

/// Table `a` holds a foreign key into a table of another name, `b`.
pub open spec fn references(a: Table, b: Table) -> bool {
    &&& a.name@ != b.name@
    &&& exists|i: int| 0 <= i < a.columns@.len() && column_targets(#[trigger] a.columns@[i], b.name@)
}

/// `a` must come after `b`: `a` references `b`, or, when `rev` holds, `b` references `a`.
pub open spec fn edge(ts: Seq<Table>, a: int, b: int, rev: bool) -> bool {
    if rev {
        references(ts[b], ts[a])
    } else {
        references(ts[a], ts[b])
    }
}

pub open spec fn is_member(members: Seq<usize>, k: int) -> bool {
    exists|p: int| 0 <= p < members.len() && members[p] == k
}

/// A nonempty set of members each of which must come after another member.
#[verifier::opaque]
pub open spec fn closed_set(ts: Seq<Table>, members: Seq<usize>, s: Set<int>, rev: bool) -> bool {
    &&& exists|k: int| s.contains(k)
    &&& forall|k: int| s.contains(k) ==> is_member(members, k)
    &&& forall|k: int|
        s.contains(k) ==> exists|m: int| s.contains(m) && #[trigger] edge(ts, k, m, rev)
}

/// No order of the members respects every edge.
pub open spec fn blocked(ts: Seq<Table>, members: Seq<usize>, rev: bool) -> bool {
    exists|s: Set<int>| closed_set(ts, members, s, rev)
}

pub open spec fn distinct(s: Seq<usize>) -> bool {
    forall|i: int, j: int| 0 <= i < s.len() && 0 <= j < s.len() && i != j ==> s[i] != s[j]
}

/// `order` holds the members, each once.
pub open spec fn is_permutation(order: Seq<usize>, members: Seq<usize>) -> bool {
    &&& order.len() == members.len()
    &&& distinct(order)
    &&& forall|k: int| #[trigger] is_member(order, k) <==> #[trigger] is_member(members, k)
}

/// Every edge points backwards in `order`.
pub open spec fn respects(ts: Seq<Table>, order: Seq<usize>, rev: bool) -> bool {
    forall|i: int, j: int|
        0 <= i < order.len() && 0 <= j < order.len() && #[trigger] edge(ts, order[i] as int, order[j] as int, rev)
            ==> j < i
}

pub open spec fn count_false(s: Seq<bool>) -> nat
    decreases s.len(),
{
    if s.len() == 0 {
        0
    } else {
        count_false(s.drop_last()) + if s.last() { 0nat } else { 1nat }
    }
}

proof fn lemma_count_false_set(s: Seq<bool>, p: int)
    requires
        0 <= p < s.len(),
        !s[p],
    ensures
        count_false(s.update(p, true)) + 1 == count_false(s),
    decreases s.len(),
{
    if p == s.len() - 1 {
        assert(s.update(p, true).drop_last() =~= s.drop_last());
    } else {
        lemma_count_false_set(s.drop_last(), p);
        assert(s.update(p, true).drop_last() =~= s.drop_last().update(p, true));
    }
}

/// From position `i` on, `a` comes before `b` in the order of character codes,
/// a proper prefix first.
pub open spec fn name_lt_from(a: Seq<char>, b: Seq<char>, i: int) -> bool
    decreases a.len() - i,
{
    if i >= a.len() {
        i < b.len()
    } else if i >= b.len() {
        false
    } else if a[i] != b[i] {
        (a[i] as u32) < (b[i] as u32)
    } else {
        name_lt_from(a, b, i + 1)
    }
}

/// `a` comes before `b` in the order of character codes, a proper prefix first.
pub open spec fn name_lt(a: Seq<char>, b: Seq<char>) -> bool {
    name_lt_from(a, b, 0)
}

/// The order of names is transitive.
pub proof fn lemma_name_lt_trans(a: Seq<char>, b: Seq<char>, c: Seq<char>, i: int)
    requires
        0 <= i,
        name_lt_from(a, b, i),
        name_lt_from(b, c, i),
    ensures
        name_lt_from(a, c, i),
    decreases a.len() - i,
{
    if i < a.len() && i < b.len() && i < c.len() && a[i] == b[i] && b[i] == c[i] {
        lemma_name_lt_trans(a, b, c, i + 1);
    }
}

/// The order of names is asymmetric.
pub proof fn lemma_name_lt_asym(a: Seq<char>, b: Seq<char>, i: int)
    requires
        0 <= i,
        name_lt_from(a, b, i),
    ensures
        !name_lt_from(b, a, i),
    decreases a.len() - i,
{
    if i < a.len() && i < b.len() && a[i] == b[i] {
        lemma_name_lt_asym(a, b, i + 1);
    }
}

/// Whether `a` comes before `b` in the order of character codes, a proper prefix first.
pub fn name_before(a: &str, b: &str) -> (r: bool)
    ensures
        r == name_lt(a@, b@),
{
    let n = a.unicode_len();
    let m = b.unicode_len();
    let mut i: usize = 0;
    while i < n && i < m
        invariant
            n == a@.len(),
            m == b@.len(),
            i <= n,
            i <= m,
            name_lt(a@, b@) == name_lt_from(a@, b@, i as int),
        decreases n - i,
    {
        let x = a.get_char(i);
        let y = b.get_char(i);
        if x != y {
            return (x as u32) < (y as u32);
        }
        i = i + 1;
    }
    n < m
}

/// Whether table `a` references table `b`.
pub fn table_references(a: &Table, b: &Table) -> (r: bool)
    ensures
        r == references(*a, *b),
{
    if str_eq(a.name.as_str(), b.name.as_str()) {
        return false;
    }
    let mut i: usize = 0;
    while i < a.columns.len()
        invariant
            i <= a.columns@.len(),
            a.name@ != b.name@,
            forall|j: int| 0 <= j < i ==> !column_targets(#[trigger] a.columns@[j], b.name@),
        decreases a.columns@.len() - i,
    {
        if let Some(k) = &a.columns[i].constraint {
            match k {
                crate::schema::Constraint::ForeignKey(fk) => {
                    if str_eq(fk.table.as_str(), b.name.as_str()) {
                        assert(column_targets(a.columns@[i as int], b.name@));
                        assert(references(*a, *b));
                        return true;
                    }
                },
            }
        }
        i = i + 1;
    }
    false
}

fn has_edge(ts: &Vec<Table>, a: usize, b: usize, rev: bool) -> (r: bool)
    requires
        a < ts@.len(),
        b < ts@.len(),
    ensures
        r == edge(ts@, a as int, b as int, rev),
{
    if rev {
        table_references(&ts[b], &ts[a])
    } else {
        table_references(&ts[a], &ts[b])
    }
}

/// Whether member `q` has no edge to a member not yet placed.
fn ready(ts: &Vec<Table>, members: &Vec<usize>, done: &Vec<bool>, q: usize, rev: bool) -> (r: bool)
    requires
        forall|p: int| 0 <= p < members@.len() ==> members@[p] < ts@.len(),
        done@.len() == members@.len(),
        q < members@.len(),
    ensures
        r == forall|m: int|
            0 <= m < members@.len() && !done@[m] ==> !edge(
                ts@,
                members@[q as int] as int,
                #[trigger] members@[m] as int,
                rev,
            ),
{
    let mut m: usize = 0;
    while m < members.len()
        invariant
            forall|p: int| 0 <= p < members@.len() ==> members@[p] < ts@.len(),
            done@.len() == members@.len(),
            q < members@.len(),
            m <= members@.len(),
            forall|j: int|
                0 <= j < m && !done@[j] ==> !edge(
                    ts@,
                    members@[q as int] as int,
                    #[trigger] members@[j] as int,
                    rev,
                ),
        decreases members@.len() - m,
    {
        if !done[m] && has_edge(ts, members[q], members[m], rev) {
            return false;
        }
        m = m + 1;
    }
    true
}

/// What holds while members are placed one by one: `done` marks the placed
/// members, `order` lists them in placement order, each placed member comes after
/// every member it has an edge to, and no member of a closed set is placed.
#[verifier::opaque]
pub open spec fn placing(ts: Seq<Table>, members: Seq<usize>, done: Seq<bool>, order: Seq<usize>, rev: bool) -> bool {
    let n = members.len();
    &&& forall|p: int| 0 <= p < members.len() ==> members[p] < ts.len()
    &&& distinct(members)
    &&& done.len() == n
    &&& distinct(order)
    &&& forall|p: int| 0 <= p < n ==> (done[p] <==> is_member(order, #[trigger] members[p] as int))
    &&& forall|j: int| 0 <= j < order.len() ==> is_member(members, #[trigger] order[j] as int)
    &&& forall|i: int, p: int|
        0 <= i < order.len() && 0 <= p < n && #[trigger] edge(ts, order[i] as int, members[p] as int, rev)
            ==> exists|j: int| 0 <= j < i && order[j] == members[p]
    &&& forall|s: Set<int>, p: int|
        closed_set(ts, members, s, rev) && 0 <= p < n && done[p] ==> !#[trigger] s.contains(members[p] as int)
}

pub open spec fn is_ready(ts: Seq<Table>, members: Seq<usize>, done: Seq<bool>, q: int, rev: bool) -> bool {
    forall|m: int| 0 <= m < members.len() && !done[m] ==> !edge(ts, members[q] as int, #[trigger] members[m] as int, rev)
}

/// `k` is among the first `i` placed members.
pub open spec fn placed_before(order: Seq<usize>, i: int, k: int) -> bool {
    exists|j: int| 0 <= j < i && order[j] == k
}

/// Member `q` has no edge to a member not among the first `i` placed.
pub open spec fn ready_after(ts: Seq<Table>, members: Seq<usize>, order: Seq<usize>, i: int, q: int, rev: bool) -> bool {
    forall|m: int| is_member(members, m) && !placed_before(order, i, m) ==> !#[trigger] edge(ts, q, m, rev)
}

/// At each step the member placed has the least name among those that could
/// have been placed then.
pub open spec fn least_name_first(ts: Seq<Table>, members: Seq<usize>, order: Seq<usize>, rev: bool) -> bool {
    forall|i: int, q: int|
        0 <= i < order.len() && is_member(members, q) && !placed_before(order, i, q) && #[trigger] ready_after(
            ts,
            members,
            order,
            i,
            q,
            rev,
        ) ==> !name_lt(ts[q].name@, ts[order[i] as int].name@)
}

proof fn lemma_least_push(ts: Seq<Table>, members: Seq<usize>, done: Seq<bool>, order: Seq<usize>, best: int, rev: bool)
    requires
        placing(ts, members, done, order, rev),
        0 <= best < members.len(),
        least_name_first(ts, members, order, rev),
        forall|p: int|
            0 <= p < members.len() && !done[p] && #[trigger] is_ready(ts, members, done, p, rev) ==> !name_lt(
                ts[members[p] as int].name@,
                ts[members[best] as int].name@,
            ),
    ensures
        least_name_first(ts, members, order.push(members[best]), rev),
{
    reveal(placing);
    let o2 = order.push(members[best]);
    let l = order.len() as int;
    assert forall|i: int, m: int| 0 <= i <= l implies placed_before(o2, i, m) == placed_before(order, i, m) by {
        if placed_before(o2, i, m) {
            let j = choose|j: int| 0 <= j < i && o2[j] == m;
            assert(order[j] == m);
        }
        if placed_before(order, i, m) {
            let j = choose|j: int| 0 <= j < i && order[j] == m;
            assert(o2[j] == m);
        }
    }
    assert forall|i: int, q: int|
        0 <= i < o2.len() && is_member(members, q) && !placed_before(o2, i, q) && #[trigger] ready_after(
            ts,
            members,
            o2,
            i,
            q,
            rev,
        ) implies !name_lt(ts[q].name@, ts[o2[i] as int].name@) by {
        assert forall|m: int| #![auto] placed_before(o2, i, m) == placed_before(order, i, m) by {}
        if i < l {
            assert(o2[i] == order[i]);
            assert(ready_after(ts, members, order, i, q, rev));
        } else {
            let pq = choose|pq: int| 0 <= pq < members.len() && members[pq] == q;
            assert(!is_member(order, q)) by {
                if is_member(order, q) {
                    let j = choose|j: int| 0 <= j < order.len() && order[j] == q;
                    assert(placed_before(order, l, q));
                }
            }
            assert(!done[pq]);
            assert forall|m2: int| 0 <= m2 < members.len() && !done[m2] implies !edge(
                ts,
                members[pq] as int,
                #[trigger] members[m2] as int,
                rev,
            ) by {
                assert(is_member(members, members[m2] as int));
                if placed_before(order, l, members[m2] as int) {
                    let j = choose|j: int| 0 <= j < l && order[j] == members[m2] as int;
                    assert(is_member(order, members[m2] as int));
                }
            }
            assert(is_ready(ts, members, done, pq, rev));
        }
    }
}

/// The rule holds for any sequence with the same members.
pub proof fn lemma_least_members(ts: Seq<Table>, m1: Seq<usize>, m2: Seq<usize>, order: Seq<usize>, rev: bool)
    requires
        forall|k: int| #[trigger] is_member(m1, k) <==> is_member(m2, k),
        least_name_first(ts, m1, order, rev),
    ensures
        least_name_first(ts, m2, order, rev),
{
    assert forall|i: int, q: int|
        0 <= i < order.len() && is_member(m2, q) && !placed_before(order, i, q) && #[trigger] ready_after(
            ts,
            m2,
            order,
            i,
            q,
            rev,
        ) implies !name_lt(ts[q].name@, ts[order[i] as int].name@) by {
        assert(is_member(m1, q));
        assert forall|m: int| is_member(m1, m) && !placed_before(order, i, m) implies !#[trigger] edge(ts, q, m, rev) by {
            assert(is_member(m2, m));
        }
        assert(ready_after(ts, m1, order, i, q, rev));
    }
}

proof fn lemma_start(ts: Seq<Table>, members: Seq<usize>, done: Seq<bool>, rev: bool)
    requires
        forall|p: int| 0 <= p < members.len() ==> members[p] < ts.len(),
        distinct(members),
        done.len() == members.len(),
        forall|p: int| 0 <= p < done.len() ==> !done[p],
    ensures
        placing(ts, members, done, seq![], rev),
{
    reveal(placing);
}

proof fn lemma_place(ts: Seq<Table>, members: Seq<usize>, done: Seq<bool>, order: Seq<usize>, q: int, rev: bool)
    requires
        placing(ts, members, done, order, rev),
        0 <= q < members.len(),
        !done[q],
        is_ready(ts, members, done, q, rev),
    ensures
        placing(ts, members, done.update(q, true), order.push(members[q]), rev),
{
    reveal(closed_set);
    reveal(placing);
    let n = members.len();
    let k = members[q];
    let nd = done.update(q, true);
    let no = order.push(k);
    assert(no.last() == k);
    assert(!is_member(order, k as int));
    assert forall|p: int| 0 <= p < n implies (nd[p] <==> is_member(no, #[trigger] members[p] as int)) by {
        if p == q {
            assert(no[order.len() as int] == k);
        } else {
            assert(members[p] != k);
            if is_member(no, members[p] as int) {
                let j = choose|j: int| 0 <= j < no.len() && no[j] == members[p];
                assert(j < order.len());
                assert(order[j] == members[p]);
            }
            if done[p] {
                let j = choose|j: int| 0 <= j < order.len() && order[j] == members[p];
                assert(no[j] == members[p]);
            }
        }
    }
    assert forall|j: int| 0 <= j < no.len() implies is_member(members, #[trigger] no[j] as int) by {
        if j == order.len() {
            assert(members[q] == no[j]);
        } else {
            assert(no[j] == order[j]);
        }
    }
    assert forall|i: int, j: int| 0 <= i < no.len() && 0 <= j < no.len() && i != j implies no[i] != no[j] by {
        if i == order.len() {
            assert(order[j] == no[j]);
        } else if j == order.len() {
            assert(order[i] == no[i]);
        }
    }
    assert forall|i: int, p: int|
        0 <= i < no.len() && 0 <= p < n && #[trigger] edge(ts, no[i] as int, members[p] as int, rev)
            implies exists|j: int| 0 <= j < i && no[j] == members[p] by {
        if i == order.len() {
            assert(p != q);
            assert(done[p]);
            let j = choose|j: int| 0 <= j < order.len() && order[j] == members[p];
            assert(no[j] == members[p]);
        } else {
            assert(no[i] == order[i]);
            let j = choose|j: int| 0 <= j < i && order[j] == members[p];
            assert(no[j] == members[p]);
        }
    }
    assert forall|s: Set<int>, p: int|
        closed_set(ts, members, s, rev) && 0 <= p < n && nd[p] implies !#[trigger] s.contains(members[p] as int) by {
        if p == q && s.contains(k as int) {
            let m = choose|m: int| s.contains(m) && #[trigger] edge(ts, k as int, m, rev);
            let pm = choose|pm: int| 0 <= pm < members.len() && members[pm] == m;
            assert(edge(ts, members[q] as int, members[pm] as int, rev));
            assert(!done[pm]);
        }
    }
}

proof fn lemma_stuck(ts: Seq<Table>, members: Seq<usize>, done: Seq<bool>, order: Seq<usize>, rev: bool)
    requires
        exists|p: int| 0 <= p < members.len() && !done[p],
        forall|p: int|
            0 <= p < members.len() && !done[p] ==> exists|m: int|
                0 <= m < members.len() && !done[m] && #[trigger] edge(ts, members[p] as int, members[m] as int, rev),
    ensures
        blocked(ts, members, rev),
{
    reveal(closed_set);
    
    let n = members.len();
    let s = Set::new(|k: int| exists|p: int| 0 <= p < n && !done[p] && members[p] == k);
    let p0 = choose|p: int| 0 <= p < n && !done[p];
    assert(0 <= p0 < n && !done[p0] && members[p0] == members[p0] as int);
    assert(s.contains(members[p0] as int));
    assert forall|k: int| s.contains(k) implies exists|m: int| s.contains(m) && #[trigger] edge(ts, k, m, rev) by {
        let p = choose|p: int| 0 <= p < n && !done[p] && members[p] == k;
        let m = choose|m: int| 0 <= m < n && !done[m] && #[trigger] edge(ts, members[p] as int, members[m] as int, rev);
        assert(0 <= m < n && !done[m] && members[m] == members[m] as int);
        assert(s.contains(members[m] as int));
        assert(edge(ts, k, members[m] as int, rev));
    }
    assert forall|k: int| s.contains(k) implies is_member(members, k) by {
        let p = choose|p: int| 0 <= p < n && !done[p] && members[p] == k;
    }
    assert(closed_set(ts, members, s, rev));
}

proof fn lemma_finished(ts: Seq<Table>, members: Seq<usize>, done: Seq<bool>, order: Seq<usize>, rev: bool)
    requires
        placing(ts, members, done, order, rev),
        forall|p: int| 0 <= p < members.len() ==> done[p],
    ensures
        is_permutation(order, members),
        respects(ts, order, rev),
        !blocked(ts, members, rev),
{
    reveal(closed_set);
    reveal(placing);
    assert forall|k: int| is_member(members, k) implies is_member(order, k) by {
        let p = choose|p: int| 0 <= p < members.len() && members[p] == k;
        assert(done[p]);
    }
    lemma_distinct_len(order, members);
    assert forall|i: int, j: int|
        0 <= i < order.len() && 0 <= j < order.len() && #[trigger] edge(ts, order[i] as int, order[j] as int, rev)
            implies j < i by {
        let p = choose|p: int| 0 <= p < members.len() && members[p] == order[j] as int;
        assert(edge(ts, order[i] as int, members[p] as int, rev));
        let j2 = choose|j2: int| 0 <= j2 < i && order[j2] == members[p];
    }
    assert forall|s: Set<int>| !closed_set(ts, members, s, rev) by {
        if closed_set(ts, members, s, rev) {
            let k = choose|k: int| s.contains(k);
            let p = choose|p: int| 0 <= p < members.len() && members[p] == k;
            assert(done[p]);
        }
    }
}

/// Orders the members so that each comes after every member it has an edge to,
/// or reports that no such order exists.
pub fn order_tables(ts: &Vec<Table>, members: &Vec<usize>, rev: bool) -> (r: Option<Vec<usize>>)
    requires
        forall|p: int| 0 <= p < members@.len() ==> members@[p] < ts@.len(),
        distinct(members@),
    ensures
        r is Some <==> !blocked(ts@, members@, rev),
        r matches Some(order) ==> is_permutation(order@, members@) && respects(ts@, order@, rev),
        r matches Some(order) ==> least_name_first(ts@, members@, order@, rev),
{
    let n = members.len();
    let mut done: Vec<bool> = Vec::new();
    while done.len() < n
        invariant
            done@.len() <= n,
            forall|p: int| 0 <= p < done@.len() ==> !done@[p],
        decreases n - done@.len(),
    {
        done.push(false);
    }
    let mut order: Vec<usize> = Vec::new();
    proof {
        lemma_start(ts@, members@, done@, rev);
    }
    loop
        invariant
            n == members@.len(),
            forall|p: int| 0 <= p < members@.len() ==> members@[p] < ts@.len(),
            done@.len() == n,
            placing(ts@, members@, done@, order@, rev),
            least_name_first(ts@, members@, order@, rev),
        decreases count_false(done@),
    {
        let mut q: usize = 0;
        let mut found = false;
        let mut best: usize = 0;
        let mut any_pending = false;
        while q < n
            invariant
                n == members@.len(),
                forall|p: int| 0 <= p < members@.len() ==> members@[p] < ts@.len(),
                done@.len() == n,
                q <= n,
                found ==> best < n && !done@[best as int] && is_ready(ts@, members@, done@, best as int, rev),
                any_pending ==> exists|p: int| 0 <= p < n && !done@[p],
                !any_pending ==> forall|p: int| 0 <= p < q ==> done@[p],
                found ==> forall|p: int|
                    0 <= p < q && !done@[p] && #[trigger] is_ready(ts@, members@, done@, p, rev) ==> !name_lt(
                        ts@[members@[p] as int].name@,
                        ts@[members@[best as int] as int].name@,
                    ),
                !found ==> forall|p: int|
                    0 <= p < q && !done@[p] ==> exists|m: int|
                        0 <= m < n && !done@[m] && #[trigger] edge(
                            ts@,
                            members@[p] as int,
                            members@[m] as int,
                            rev,
                        ),
            decreases n - q,
        {
            if !done[q] {
                any_pending = true;
                if ready(ts, members, &done, q, rev) {
                    let ghost old_best = best;
                    let ghost was_found = found;
                    if !found || name_before(ts[members[q]].name.as_str(), ts[members[best]].name.as_str()) {
                        best = q;
                    }
                    found = true;
                    proof {
                        let nb = ts@[members@[best as int] as int].name@;
                        assert forall|p: int|
                            0 <= p < q + 1 && !done@[p] && #[trigger] is_ready(ts@, members@, done@, p, rev) implies !name_lt(
                                ts@[members@[p] as int].name@,
                                nb,
                            ) by {
                            let np = ts@[members@[p] as int].name@;
                            if p < q {
                                if !was_found {
                                    let m = choose|m: int|
                                        0 <= m < n && !done@[m] && #[trigger] edge(ts@, members@[p] as int, members@[m] as int, rev);
                                } else if best == q {
                                    let no = ts@[members@[old_best as int] as int].name@;
                                    if name_lt(np, nb) {
                                        lemma_name_lt_trans(np, nb, no, 0);
                                    }
                                }
                            } else if best == q {
                                if name_lt(np, nb) {
                                    lemma_name_lt_asym(np, nb, 0);
                                }
                            }
                        }
                    }
                }
            }
            q = q + 1;
        }
        if !found {
            if any_pending {
                proof {
                    lemma_stuck(ts@, members@, done@, order@, rev);
                }
                return None;
            }
            proof {
                lemma_finished(ts@, members@, done@, order@, rev);
            }
            return Some(order);
        }
        proof {
            lemma_count_false_set(done@, best as int);
            lemma_least_push(ts@, members@, done@, order@, best as int, rev);
            lemma_place(ts@, members@, done@, order@, best as int, rev);
        }
        done.set(best, true);
        order.push(members[best]);
    }
}

/// A duplicate-free sequence drawn from `b` is no longer than `b`, and when it
/// holds every element of `b` it is exactly as long.
pub proof fn lemma_distinct_len(a: Seq<usize>, b: Seq<usize>)
    requires
        distinct(a),
        distinct(b),
        forall|j: int| 0 <= j < a.len() ==> is_member(b, #[trigger] a[j] as int),
        forall|p: int| 0 <= p < b.len() ==> is_member(a, #[trigger] b[p] as int),
    ensures
        a.len() == b.len(),
{
    let sa = a.to_set();
    let sb = b.to_set();
    assert(sa =~= sb) by {
        assert forall|x: usize| sa.contains(x) implies sb.contains(x) by {
            let j = choose|j: int| 0 <= j < a.len() && a[j] == x;
            assert(is_member(b, a[j] as int));
            let p = choose|p: int| 0 <= p < b.len() && b[p] == a[j] as int;
            assert(b[p] == x);
        }
        assert forall|x: usize| sb.contains(x) implies sa.contains(x) by {
            let p = choose|p: int| 0 <= p < b.len() && b[p] == x;
            assert(is_member(a, b[p] as int));
            let j = choose|j: int| 0 <= j < a.len() && a[j] == b[p] as int;
            assert(a[j] == x);
        }
    }
    assert(a.no_duplicates());
    assert(b.no_duplicates());
    a.unique_seq_to_set();
    b.unique_seq_to_set();
}

} // verus!
