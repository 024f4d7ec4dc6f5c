//! The engine's cross-operation laws, stated and proved over the same spec
//! functions its operation contracts use. Each law speaks about the store
//! sequences that `create_allocation`, `remove_allocation` and
//! `create_scenario` pin down in their postconditions, so it applies to any
//! state those operations can produce.

use vstd::prelude::*;

use crate::engine::Engine;
use crate::model::{
    Allocation, AllocationStatus, Engineer, Scope, available_hours, cloned_into, committed_hours,
    consumes, lemma_live_contains, live_allocations, same_slot, slot_taken,
};

verus! {

/// The store after the allocation at index `i` is removed: status flipped
/// to Removed, every other field and every other row kept.
pub open spec fn with_allocation_removed(s: Seq<Allocation>, i: int) -> Seq<Allocation> {
    s.update(i, (Allocation { status: AllocationStatus::Removed, ..s[i] }))
}

/// How one appended row changes the committed total: by exactly its hours
/// when it consumes the engineer's time in that scope and week, else not at
/// all.
proof fn lemma_committed_after_push(
    s: Seq<Allocation>,
    a: Allocation,
    engineer_id: u64,
    scope: Scope,
    week: u32,
)
    ensures
        committed_hours(s.push(a), engineer_id, scope, week) == committed_hours(
            s,
            engineer_id,
            scope,
            week,
        ) + if consumes(a, engineer_id, scope, week) {
            a.hours_per_week as int
        } else {
            0
        },
{
    assert(s.push(a).drop_last() =~= s);
    assert(s.push(a).last() == a);
}

/// How removing the row at index `i` changes the committed total: down by
/// exactly its hours when it was consuming, else not at all.
proof fn lemma_committed_after_remove(
    s: Seq<Allocation>,
    i: int,
    engineer_id: u64,
    scope: Scope,
    week: u32,
)
    requires
        0 <= i < s.len(),
    ensures
        committed_hours(with_allocation_removed(s, i), engineer_id, scope, week)
            == committed_hours(s, engineer_id, scope, week) - if consumes(
            s[i],
            engineer_id,
            scope,
            week,
        ) {
            s[i].hours_per_week as int
        } else {
            0
        },
    decreases s.len(),
{
    let t = with_allocation_removed(s, i);
    if i == s.len() - 1 {
        assert(t.drop_last() =~= s.drop_last());
        assert(t.last() == (Allocation { status: AllocationStatus::Removed, ..s[i] }));
        assert(!consumes(t.last(), engineer_id, scope, week));
    } else {
        assert(t.drop_last() =~= with_allocation_removed(s.drop_last(), i));
        assert(t.last() == s.last());
        lemma_committed_after_remove(s.drop_last(), i, engineer_id, scope, week);
        assert(s.drop_last()[i] == s[i]);
    }
}

/// Available hours never rise when an active allocation is added, and fall
/// by exactly its hours whenever its window covers the week in the same
/// scope. (`create_allocation` ensures the new store is `s.push(a)` with
/// `a` active and positive-hours, so this applies to every successful
/// creation. The reads - listing, workload, and the capacity computation
/// itself - borrow the engine immutably and so cannot change the result at
/// all.)
pub proof fn lemma_available_after_create(
    e: Engineer,
    s: Seq<Allocation>,
    a: Allocation,
    scope: Scope,
    week: u32,
)
    requires
        a.status is Active,
        a.hours_per_week >= 1,
    ensures
        available_hours(e, s.push(a), scope, week) <= available_hours(e, s, scope, week),
        consumes(a, e.id, scope, week) ==> available_hours(e, s.push(a), scope, week)
            == available_hours(e, s, scope, week) - a.hours_per_week,
        !consumes(a, e.id, scope, week) ==> available_hours(e, s.push(a), scope, week)
            == available_hours(e, s, scope, week),
{
    lemma_committed_after_push(s, a, e.id, scope, week);
}

/// Available hours never fall when an active allocation is removed, and
/// rise by exactly its hours whenever it was consuming. Together with
/// `lemma_available_after_create` this is the monotonicity of the capacity
/// model under the allocation lifecycle.
pub proof fn lemma_available_after_remove(
    e: Engineer,
    s: Seq<Allocation>,
    i: int,
    scope: Scope,
    week: u32,
)
    requires
        0 <= i < s.len(),
    ensures
        available_hours(e, with_allocation_removed(s, i), scope, week) >= available_hours(
            e,
            s,
            scope,
            week,
        ),
        consumes(s[i], e.id, scope, week) ==> available_hours(
            e,
            with_allocation_removed(s, i),
            scope,
            week,
        ) == available_hours(e, s, scope, week) + s[i].hours_per_week,
        !consumes(s[i], e.id, scope, week) ==> available_hours(
            e,
            with_allocation_removed(s, i),
            scope,
            week,
        ) == available_hours(e, s, scope, week),
{
    lemma_committed_after_remove(s, i, e.id, scope, week);
}

/// At most one active allocation occupies a (project, engineer, start-week)
/// slot within a scope, in every well-formed engine state: two active rows
/// claiming the same slot are the same row. With `create_allocation`'s
/// contract - success if and only if the slot was free - this is why of two
/// creations racing for one slot exactly one can succeed: whichever lands
/// first occupies the slot, and the contract forces `Conflict` on the
/// other.
pub proof fn lemma_at_most_one_active_per_slot(e: Engine, i: int, j: int)
    requires
        e.wf(),
        0 <= i < e.allocations@.len(),
        0 <= j < e.allocations@.len(),
        e.allocations@[i].status is Active,
        e.allocations@[j].status is Active,
        same_slot(e.allocations@[i], e.allocations@[j]),
    ensures
        i == j,
{
}

/// A successful creation occupies its slot: after the active row `a` is
/// appended, the slot it claims is taken, so a second same-slot creation in
/// the same scope must conflict.
pub proof fn lemma_created_slot_taken(s: Seq<Allocation>, a: Allocation)
    requires
        a.status is Active,
    ensures
        slot_taken(s.push(a), a.project_id, a.engineer_id, a.start_week, a.scope),
{
    assert(s.push(a)[s.len() as int] == a);
}

/// Scopes are isolated: appending an allocation in one scope changes
/// neither the available hours nor the occupied slots of any other scope.
/// So an edit inside a scenario never affects Live and vice versa, and the
/// same (project, engineer, week) triple can be created once per scope.
pub proof fn lemma_scope_isolation(
    e: Engineer,
    s: Seq<Allocation>,
    a: Allocation,
    scope: Scope,
    week: u32,
    project_id: u64,
    engineer_id: u64,
    start_week: Option<u32>,
)
    requires
        a.scope != scope,
    ensures
        available_hours(e, s.push(a), scope, week) == available_hours(e, s, scope, week),
        slot_taken(s.push(a), project_id, engineer_id, start_week, scope) == slot_taken(
            s,
            project_id,
            engineer_id,
            start_week,
            scope,
        ),
{
    lemma_committed_after_push(s, a, e.id, scope, week);
    if slot_taken(s, project_id, engineer_id, start_week, scope) {
        let w = choose|i: int|
            0 <= i < s.len() && (#[trigger] s[i]).status is Active && s[i].project_id == project_id
                && s[i].engineer_id == engineer_id && s[i].start_week == start_week && s[i].scope
                == scope;
        assert(s.push(a)[w] == s[w]);
    }
    if slot_taken(s.push(a), project_id, engineer_id, start_week, scope) {
        let w = choose|i: int|
            0 <= i < s.push(a).len() && (#[trigger] s.push(a)[i]).status is Active && s.push(
                a,
            )[i].project_id == project_id && s.push(a)[i].engineer_id == engineer_id && s.push(
                a,
            )[i].start_week == start_week && s.push(a)[i].scope == scope;
        assert(w != s.len());
        assert(s[w] == s.push(a)[w]);
    }
}

/// Is `c` a faithful scenario-scoped clone of `src`: every planning field
/// identical, the new scenario's scope, and a different identity?
pub open spec fn clone_matches(src: Allocation, c: Allocation, sid: u64) -> bool {
    &&& c.project_id == src.project_id
    &&& c.engineer_id == src.engineer_id
    &&& c.role_required == src.role_required
    &&& c.hours_per_week == src.hours_per_week
    &&& c.allocation_type == src.allocation_type
    &&& c.start_week == src.start_week
    &&& c.end_week == src.end_week
    &&& c.status == src.status
    &&& c.scope == Scope::Scenario(sid)
    &&& c.id != src.id
}

/// Scenario cloning is a total bijection from the live rows onto the new
/// scenario's rows: the clone of live row `j` stands at index
/// `s.len() + j` of the new store, carries the same project, engineer,
/// role, hours, category, window and status, the new scenario's scope, and
/// a fresh identity; and all identities in the extended store remain
/// distinct. The hypotheses are exactly what `create_scenario` ensures of a
/// well-formed pre-state (where every stored identity lies below the new
/// scenario's identity `sid`), and an empty live set satisfies them with
/// zero clones.
pub proof fn lemma_scenario_clone_bijection(s: Seq<Allocation>, t: Seq<Allocation>, sid: u64)
    requires
        forall|i: int, j: int|
            0 <= i < s.len() && 0 <= j < s.len() && i != j ==> (#[trigger] s[i]).id != (
            #[trigger] s[j]).id,
        forall|i: int| 0 <= i < s.len() ==> (#[trigger] s[i]).id < sid,
        t.len() == s.len() + live_allocations(s).len(),
        forall|j: int| 0 <= j < s.len() ==> #[trigger] t[j] == s[j],
        forall|j: int|
            0 <= j < live_allocations(s).len() ==> #[trigger] t[s.len() + j] == cloned_into(
                live_allocations(s)[j],
                (sid + 1 + j) as u64,
                sid,
            ),
        sid + 1 + live_allocations(s).len() <= u64::MAX,
    ensures
        forall|i: int, j: int|
            0 <= i < t.len() && 0 <= j < t.len() && i != j ==> (#[trigger] t[i]).id != (
            #[trigger] t[j]).id,
        forall|j: int|
            0 <= j < live_allocations(s).len() ==> #[trigger] clone_matches(
                live_allocations(s)[j],
                t[s.len() + j],
                sid,
            ),
{
    let live = live_allocations(s);
    let n = s.len() as int;
    lemma_live_contains(s);
    assert forall|k: int| n <= k < t.len() implies #[trigger] t[k] == cloned_into(
        live[k - n],
        (sid + 1 + (k - n)) as u64,
        sid,
    ) by {
        assert(t[n + (k - n)] == cloned_into(live[k - n], (sid + 1 + (k - n)) as u64, sid));
    }
    assert forall|i: int, j: int|
        0 <= i < t.len() && 0 <= j < t.len() && i != j implies (#[trigger] t[i]).id != (
    #[trigger] t[j]).id by {
        if i < n && j < n {
            assert(t[i] == s[i] && t[j] == s[j]);
        } else if i < n && j >= n {
            assert(t[i] == s[i] && t[i].id < sid);
            assert(t[j].id == sid + 1 + (j - n));
        } else if j < n && i >= n {
            assert(t[j] == s[j] && t[j].id < sid);
            assert(t[i].id == sid + 1 + (i - n));
        } else {
            assert(t[i].id == sid + 1 + (i - n));
            assert(t[j].id == sid + 1 + (j - n));
        }
    }
    assert forall|j: int| 0 <= j < live.len() implies #[trigger] clone_matches(
        live[j],
        t[s.len() + j],
        sid,
    ) by {
        let src = live[j];
        assert(s.contains(src));
        let w = choose|w: int| 0 <= w < s.len() && s[w] == src;
        assert(s[w].id < sid);
        assert(t[n + j] == cloned_into(src, (sid + 1 + j) as u64, sid));
    }
}

} // verus!
