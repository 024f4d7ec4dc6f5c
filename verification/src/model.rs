//! Core data model: scopes, allocation records, engineers, projects, and
//! scenarios, together with the spec-level predicates and aggregate
//! functions that the engine's contracts are stated over.

use vstd::prelude::*;

verus! {

/// The partition within which allocation uniqueness and capacity totals are
/// computed: the single authoritative live plan, or one isolated scenario.
#[derive(Clone, Copy, PartialEq, Eq, Structural, Debug)]
pub enum Scope {
    Live,
    Scenario(u64),
}

/// Lifecycle status of an allocation. `Active --remove--> Removed` is the
/// only transition; a removed row is retained for history and never
/// re-activated.
#[derive(Clone, Copy, PartialEq, Eq, Structural, Debug)]
pub enum AllocationStatus {
    Active,
    Removed,
}

/// A time-scoped commitment of an engineer's weekly hours to a project.
///
/// The inclusive `start_week ..= end_week` window says in which weeks the
/// hours apply; an absent bound means unbounded in that direction.
pub struct Allocation {
    pub id: u64,
    pub project_id: u64,
    pub engineer_id: u64,
    pub role_required: String,
    pub hours_per_week: u32,
    pub allocation_type: String,
    pub start_week: Option<u32>,
    pub end_week: Option<u32>,
    pub status: AllocationStatus,
    pub scope: Scope,
}

impl Clone for Allocation {
    fn clone(&self) -> (r: Self)
        ensures
            r == *self,
    {
        Allocation {
            id: self.id,
            project_id: self.project_id,
            engineer_id: self.engineer_id,
            role_required: self.role_required.clone(),
            hours_per_week: self.hours_per_week,
            allocation_type: self.allocation_type.clone(),
            start_week: self.start_week,
            end_week: self.end_week,
            status: self.status,
            scope: self.scope,
        }
    }
}

/// An engineer, with weekly capacity figures. `ktlo_tax` is the fixed
/// overhead (keep-the-lights-on hours) reserved each week; it never exceeds
/// `total_capacity`.
pub struct Engineer {
    pub id: u64,
    pub name: String,
    pub total_capacity: u32,
    pub ktlo_tax: u32,
    pub is_pm: bool,
}

impl Engineer {
    /// The capacity invariant: overhead fits within total capacity.
    pub open spec fn wf(self) -> bool {
        self.ktlo_tax <= self.total_capacity
    }
}

impl Clone for Engineer {
    fn clone(&self) -> (r: Self)
        ensures
            r == *self,
    {
        Engineer {
            id: self.id,
            name: self.name.clone(),
            total_capacity: self.total_capacity,
            ktlo_tax: self.ktlo_tax,
            is_pm: self.is_pm,
        }
    }
}

/// A project. Archiving is a logical soft-delete: archived projects are
/// excluded from active listings and reject new allocations, but their
/// allocation history stays addressable.
pub struct Project {
    pub id: u64,
    pub name: String,
    pub priority: String,
    pub workflow_status: String,
    pub owner_id: Option<u64>,
    pub archived: bool,
}

impl Clone for Project {
    fn clone(&self) -> (r: Self)
        ensures
            r == *self,
    {
        Project {
            id: self.id,
            name: self.name.clone(),
            priority: self.priority.clone(),
            workflow_status: self.workflow_status.clone(),
            owner_id: self.owner_id,
            archived: self.archived,
        }
    }
}

/// Metadata of a what-if branch. A scenario holds no allocations itself;
/// allocations reference it through their scope.
pub struct Scenario {
    pub id: u64,
    pub name: String,
    pub description: Option<String>,
    pub created_by: u64,
    pub created_at_millis: i64,
}

impl Clone for Scenario {
    fn clone(&self) -> (r: Self)
        ensures
            r == *self,
    {
        Scenario {
            id: self.id,
            name: self.name.clone(),
            description: match &self.description {
                Some(d) => Some(d.clone()),
                None => None,
            },
            created_by: self.created_by,
            created_at_millis: self.created_at_millis,
        }
    }
}

/// One row of the per-engineer workload view: an active allocation joined
/// with the name of the project it commits time to.
pub struct AllocationView {
    pub id: u64,
    pub project_name: String,
    pub role_required: String,
    pub hours_per_week: u32,
}

/// Does the allocation's inclusive week window cover `week`?
pub open spec fn covers(a: Allocation, week: u32) -> bool {
    &&& match a.start_week {
        Some(s) => s <= week,
        None => true,
    }
    &&& match a.end_week {
        Some(e) => week <= e,
        None => true,
    }
}

/// Does this allocation consume hours of engineer `engineer_id` in `scope`
/// during `week`? Only active allocations whose window covers the week count.
pub open spec fn consumes(a: Allocation, engineer_id: u64, scope: Scope, week: u32) -> bool {
    &&& a.engineer_id == engineer_id
    &&& a.scope == scope
    &&& a.status is Active
    &&& covers(a, week)
}

/// Total hours per week committed by the allocations in `s` that consume
/// time of `engineer_id` in `scope` during `week`.
pub open spec fn committed_hours(
    s: Seq<Allocation>,
    engineer_id: u64,
    scope: Scope,
    week: u32,
) -> int
    decreases s.len(),
{
    if s.len() == 0 {
        0
    } else {
        committed_hours(s.drop_last(), engineer_id, scope, week) + if consumes(
            s.last(),
            engineer_id,
            scope,
            week,
        ) {
            s.last().hours_per_week as int
        } else {
            0
        }
    }
}

/// An engineer's remaining weekly hours in a scope: total capacity, minus
/// the fixed overhead tax, minus every active committed allocation covering
/// the week. Negative values signal over-allocation and are not clamped.
pub open spec fn available_hours(
    e: Engineer,
    s: Seq<Allocation>,
    scope: Scope,
    week: u32,
) -> int {
    e.total_capacity - e.ktlo_tax - committed_hours(s, e.id, scope, week)
}

/// Two allocations claim the same uniqueness slot: same project, engineer,
/// start week, and scope. Scope is part of the key, so the same triple may
/// exist once in `Live` and once in each scenario.
pub open spec fn same_slot(a: Allocation, b: Allocation) -> bool {
    &&& a.project_id == b.project_id
    &&& a.engineer_id == b.engineer_id
    &&& a.start_week == b.start_week
    &&& a.scope == b.scope
}

/// The uniqueness invariant: no two distinct active allocations share a
/// slot. Removed rows are excluded, freeing their slot for a future
/// allocation.
pub open spec fn unique_active(s: Seq<Allocation>) -> bool {
    forall|i: int, j: int|
        0 <= i < s.len() && 0 <= j < s.len() && i != j && s[i].status is Active
            && s[j].status is Active ==> !same_slot(#[trigger] s[i], #[trigger] s[j])
}

/// Is there an active allocation in `s` occupying the slot
/// (`project_id`, `engineer_id`, `start_week`) within `scope`?
pub open spec fn slot_taken(
    s: Seq<Allocation>,
    project_id: u64,
    engineer_id: u64,
    start_week: Option<u32>,
    scope: Scope,
) -> bool {
    exists|i: int|
        0 <= i < s.len() && (#[trigger] s[i]).status is Active && s[i].project_id == project_id
            && s[i].engineer_id == engineer_id && s[i].start_week == start_week && s[i].scope
            == scope
}

/// Does the allocation belong to the listing for `engineer_id` in `scope`?
/// Removed rows appear only when `include_removed` is set.
pub open spec fn listed(
    a: Allocation,
    engineer_id: u64,
    scope: Scope,
    include_removed: bool,
) -> bool {
    &&& a.engineer_id == engineer_id
    &&& a.scope == scope
    &&& (include_removed || a.status is Active)
}

/// The subsequence of `s`, in stored (creation) order, listed for
/// `engineer_id` in `scope`.
pub open spec fn listing(
    s: Seq<Allocation>,
    engineer_id: u64,
    scope: Scope,
    include_removed: bool,
) -> Seq<Allocation>
    decreases s.len(),
{
    if s.len() == 0 {
        Seq::empty()
    } else {
        listing(s.drop_last(), engineer_id, scope, include_removed) + if listed(
            s.last(),
            engineer_id,
            scope,
            include_removed,
        ) {
            seq![s.last()]
        } else {
            Seq::empty()
        }
    }
}

/// The subsequence of `s`, in stored order, whose scope is `Live`: the rows
/// a new scenario clones.
pub open spec fn live_allocations(s: Seq<Allocation>) -> Seq<Allocation>
    decreases s.len(),
{
    if s.len() == 0 {
        Seq::empty()
    } else {
        live_allocations(s.drop_last()) + if s.last().scope is Live {
            seq![s.last()]
        } else {
            Seq::empty()
        }
    }
}

/// Every row selected by `live_allocations` has scope `Live` and occurs in
/// the source sequence.
pub proof fn lemma_live_contains(s: Seq<Allocation>)
    ensures
        forall|j: int|
            0 <= j < live_allocations(s).len() ==> ((#[trigger] live_allocations(
                s,
            )[j]).scope is Live && s.contains(live_allocations(s)[j])),
    decreases s.len(),
{
    if s.len() > 0 {
        let d = s.drop_last();
        lemma_live_contains(d);
        let prev = live_allocations(d);
        let cur = live_allocations(s);
        assert forall|j: int| 0 <= j < cur.len() implies ((#[trigger] cur[j]).scope is Live
            && s.contains(cur[j])) by {
            if j < prev.len() {
                assert(cur[j] == prev[j]);
                let i = choose|i: int| 0 <= i < d.len() && d[i] == prev[j];
                assert(s[i] == prev[j]);
            } else {
                assert(cur[j] == s.last());
                assert(s[s.len() - 1] == s.last());
            }
        }
    }
}

/// The live subsequence of a store with unique active slots again has
/// unique active slots: the rows a scenario clones were already mutually
/// consistent.
pub proof fn lemma_live_unique(s: Seq<Allocation>)
    requires
        unique_active(s),
    ensures
        unique_active(live_allocations(s)),
    decreases s.len(),
{
    if s.len() > 0 {
        let d = s.drop_last();
        assert forall|i: int, j: int|
            0 <= i < d.len() && 0 <= j < d.len() && i != j && d[i].status is Active
                && d[j].status is Active implies !same_slot(#[trigger] d[i], #[trigger] d[j]) by {
            assert(d[i] == s[i] && d[j] == s[j]);
        }
        lemma_live_unique(d);
        lemma_live_contains(d);
        let prev = live_allocations(d);
        let cur = live_allocations(s);
        assert forall|i: int, j: int|
            0 <= i < cur.len() && 0 <= j < cur.len() && i != j && cur[i].status is Active
                && cur[j].status is Active implies !same_slot(
            #[trigger] cur[i],
            #[trigger] cur[j],
        ) by {
            if i < prev.len() && j < prev.len() {
                assert(cur[i] == prev[i] && cur[j] == prev[j]);
            } else if i < prev.len() && j == prev.len() {
                assert(cur[i] == prev[i] && cur[j] == s.last());
                let w = choose|w: int| 0 <= w < d.len() && d[w] == prev[i];
                assert(s[w] == prev[i]);
                assert(s[s.len() - 1] == s.last());
            } else {
                assert(j < prev.len() && i == prev.len());
                assert(cur[j] == prev[j] && cur[i] == s.last());
                let w = choose|w: int| 0 <= w < d.len() && d[w] == prev[j];
                assert(s[w] == prev[j]);
                assert(s[s.len() - 1] == s.last());
            }
        }
    }
}

/// A prefix never selects more live rows than the whole sequence.
pub proof fn lemma_live_prefix_len(s: Seq<Allocation>, i: int)
    requires
        0 <= i <= s.len(),
    ensures
        live_allocations(s.subrange(0, i)).len() <= live_allocations(s).len(),
    decreases s.len() - i,
{
    if i == s.len() {
        assert(s.subrange(0, i) =~= s);
    } else {
        lemma_live_prefix_len(s, i + 1);
        assert(s.subrange(0, i + 1).drop_last() =~= s.subrange(0, i));
    }
}

/// The scenario-scoped copy of a live allocation: identical project,
/// engineer, role, hours, category, window and status, but a fresh identity
/// and the new scenario's scope.
pub open spec fn cloned_into(a: Allocation, id: u64, scenario_id: u64) -> Allocation {
    Allocation {
        id,
        scope: Scope::Scenario(scenario_id),
        ..a
    }
}

} // verus!
