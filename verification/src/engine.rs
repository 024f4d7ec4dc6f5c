//! The allocation & scenario engine: an in-memory store of engineers,
//! projects, allocations and scenarios, with every mutation guarded by the
//! uniqueness invariant and every operation's outcome pinned by its contract.

use vstd::prelude::*;

use crate::clock::current_timestamp_millis;
use crate::errors::{EngineError, InvalidField};
use crate::model::{
    Allocation, AllocationStatus, AllocationView, Engineer, Project, Scenario, Scope,
    available_hours, cloned_into, committed_hours, lemma_live_contains, lemma_live_prefix_len,
    lemma_live_unique, listed, listing, live_allocations, same_slot, slot_taken, unique_active,
};

verus! {

/// Is there an engineer with identity `id`?
pub open spec fn has_engineer(s: Seq<Engineer>, id: u64) -> bool {
    exists|i: int| 0 <= i < s.len() && (#[trigger] s[i]).id == id
}

/// The engineer with identity `id` (meaningful when `has_engineer` holds and
/// ids are distinct).
pub open spec fn engineer_at(s: Seq<Engineer>, id: u64) -> Engineer {
    s[choose|i: int| 0 <= i < s.len() && (#[trigger] s[i]).id == id]
}

/// Is there a project with identity `id`?
pub open spec fn has_project(s: Seq<Project>, id: u64) -> bool {
    exists|i: int| 0 <= i < s.len() && (#[trigger] s[i]).id == id
}

/// The project with identity `id` (meaningful when `has_project` holds and
/// ids are distinct).
pub open spec fn project_at(s: Seq<Project>, id: u64) -> Project {
    s[choose|i: int| 0 <= i < s.len() && (#[trigger] s[i]).id == id]
}

/// Is there a project with identity `id` that is not archived? New
/// allocations may only reference such projects.
pub open spec fn project_usable(s: Seq<Project>, id: u64) -> bool {
    exists|i: int|
        0 <= i < s.len() && (#[trigger] s[i]).id == id && !s[i].archived
}

/// Is there a scenario with identity `id`?
pub open spec fn has_scenario(s: Seq<Scenario>, id: u64) -> bool {
    exists|i: int| 0 <= i < s.len() && (#[trigger] s[i]).id == id
}

/// Does the scope resolve: `Live` always, a scenario scope only when the
/// scenario exists?
pub open spec fn scope_resolves(s: Seq<Scenario>, scope: Scope) -> bool {
    match scope {
        Scope::Live => true,
        Scope::Scenario(sid) => has_scenario(s, sid),
    }
}

/// Is there an allocation with identity `id` whose status is still Active?
pub open spec fn has_active_allocation(s: Seq<Allocation>, id: u64) -> bool {
    exists|i: int|
        0 <= i < s.len() && (#[trigger] s[i]).id == id && s[i].status is Active
}

/// No two engineers share an identity.
pub open spec fn distinct_engineer_ids(s: Seq<Engineer>) -> bool {
    forall|i: int, j: int|
        0 <= i < s.len() && 0 <= j < s.len() && i != j ==> (#[trigger] s[i]).id != (
        #[trigger] s[j]).id
}

/// No two projects share an identity.
pub open spec fn distinct_project_ids(s: Seq<Project>) -> bool {
    forall|i: int, j: int|
        0 <= i < s.len() && 0 <= j < s.len() && i != j ==> (#[trigger] s[i]).id != (
        #[trigger] s[j]).id
}

/// No two scenarios share an identity.
pub open spec fn distinct_scenario_ids(s: Seq<Scenario>) -> bool {
    forall|i: int, j: int|
        0 <= i < s.len() && 0 <= j < s.len() && i != j ==> (#[trigger] s[i]).id != (
        #[trigger] s[j]).id
}

/// No two allocations share an identity.
pub open spec fn distinct_allocation_ids(s: Seq<Allocation>) -> bool {
    forall|i: int, j: int|
        0 <= i < s.len() && 0 <= j < s.len() && i != j ==> (#[trigger] s[i]).id != (
        #[trigger] s[j]).id
}

/// The engine: the full allocation-planning state. Identities are minted
/// from `next_id`, a counter shared by all four entity kinds, so a fresh
/// identity never collides with any existing one.
pub struct Engine {
    pub engineers: Vec<Engineer>,
    pub projects: Vec<Project>,
    pub allocations: Vec<Allocation>,
    pub scenarios: Vec<Scenario>,
    pub next_id: u64,
}

impl Engine {
    /// Every identity in the store was minted below `next_id`.
    pub open spec fn ids_below_next(self) -> bool {
        &&& forall|i: int|
            0 <= i < self.engineers@.len() ==> (#[trigger] self.engineers@[i]).id < self.next_id
        &&& forall|i: int|
            0 <= i < self.projects@.len() ==> (#[trigger] self.projects@[i]).id < self.next_id
        &&& forall|i: int|
            0 <= i < self.allocations@.len() ==> (#[trigger] self.allocations@[i]).id
                < self.next_id
        &&& forall|i: int|
            0 <= i < self.scenarios@.len() ==> (#[trigger] self.scenarios@[i]).id < self.next_id
    }

    /// Every stored allocation references an existing project, an existing
    /// engineer, and (for a scenario scope) an existing scenario.
    pub open spec fn refs_valid(self) -> bool {
        forall|i: int|
            0 <= i < self.allocations@.len() ==> {
                let a = #[trigger] self.allocations@[i];
                &&& has_project(self.projects@, a.project_id)
                &&& has_engineer(self.engineers@, a.engineer_id)
                &&& scope_resolves(self.scenarios@, a.scope)
            }
    }

    /// The engine's invariant: identities are distinct and below the mint
    /// counter, engineers respect the capacity invariant, stored allocations
    /// carry positive hours and valid references, and within every scope at
    /// most one active allocation occupies a (project, engineer, start-week)
    /// slot.
    pub open spec fn wf(self) -> bool {
        &&& unique_active(self.allocations@)
        &&& distinct_engineer_ids(self.engineers@)
        &&& distinct_project_ids(self.projects@)
        &&& distinct_scenario_ids(self.scenarios@)
        &&& distinct_allocation_ids(self.allocations@)
        &&& self.ids_below_next()
        &&& forall|i: int|
            0 <= i < self.engineers@.len() ==> (#[trigger] self.engineers@[i]).wf()
        &&& forall|i: int|
            0 <= i < self.allocations@.len() ==> (#[trigger] self.allocations@[i]).hours_per_week
                >= 1
        &&& self.refs_valid()
    }

    /// An empty engine: no entities, all identities still free.
    pub fn new() -> (e: Engine)
        ensures
            e.wf(),
            e.engineers@ == Seq::<Engineer>::empty(),
            e.projects@ == Seq::<Project>::empty(),
            e.allocations@ == Seq::<Allocation>::empty(),
            e.scenarios@ == Seq::<Scenario>::empty(),
            e.next_id == 0,
    {
        Engine {
            engineers: Vec::new(),
            projects: Vec::new(),
            allocations: Vec::new(),
            scenarios: Vec::new(),
            next_id: 0,
        }
    }

    /// Registers an engineer. Rejects a keep-the-lights-on tax above total
    /// capacity before any write; otherwise appends the engineer under a
    /// fresh identity and returns that identity.
    pub fn create_engineer(
        &mut self,
        name: String,
        total_capacity: u32,
        ktlo_tax: u32,
        is_pm: bool,
    ) -> (r: Result<u64, EngineError>)
        requires
            old(self).wf(),
        ensures
            final(self).wf(),
            final(self).projects@ == old(self).projects@,
            final(self).allocations@ == old(self).allocations@,
            final(self).scenarios@ == old(self).scenarios@,
            match r {
                Ok(id) => {
                    &&& ktlo_tax <= total_capacity
                    &&& old(self).next_id < u64::MAX
                    &&& id == old(self).next_id
                    &&& final(self).engineers@ == old(self).engineers@.push(
                        (Engineer { id, name, total_capacity, ktlo_tax, is_pm }),
                    )
                    &&& final(self).next_id == old(self).next_id + 1
                },
                Err(e) => {
                    &&& *final(self) == *old(self)
                    &&& (e == EngineError::Validation(InvalidField::KtloTax) <==> ktlo_tax
                        > total_capacity)
                    &&& (e == EngineError::Storage <==> ktlo_tax <= total_capacity && old(
                        self,
                    ).next_id == u64::MAX)
                    &&& (e == EngineError::Validation(InvalidField::KtloTax) || e
                        == EngineError::Storage)
                },
            },
    {
        if ktlo_tax > total_capacity {
            return Err(EngineError::Validation(InvalidField::KtloTax));
        }
        if self.next_id == u64::MAX {
            return Err(EngineError::Storage);
        }
        let id = self.next_id;
        let engineer = Engineer { id, name, total_capacity, ktlo_tax, is_pm };
        self.engineers.push(engineer);
        self.next_id = id + 1;
        proof {
            lemma_registry_push_preserves(
                *old(self),
                *self,
            );
        }
        Ok(id)
    }

    /// All engineers, in registration order.
    pub fn list_engineers(&self) -> (r: &Vec<Engineer>)
        ensures
            r@ == self.engineers@,
    {
        &self.engineers
    }

    /// Looks an engineer up by identity; fails with `NotFound` when no
    /// engineer carries it.
    pub fn get_engineer(&self, id: u64) -> (r: Result<&Engineer, EngineError>)
        requires
            self.wf(),
        ensures
            match r {
                Ok(e) => has_engineer(self.engineers@, id) && e.id == id && *e == engineer_at(
                    self.engineers@,
                    id,
                ),
                Err(e) => e == EngineError::NotFound && !has_engineer(self.engineers@, id),
            },
    {
        let n = self.engineers.len();
        let mut k: usize = 0;
        while k < n
            invariant
                self.wf(),
                n == self.engineers@.len(),
                k <= n,
                forall|j: int| 0 <= j < k ==> (#[trigger] self.engineers@[j]).id != id,
            decreases n - k,
        {
            if self.engineers[k].id == id {
                proof {
                    let w = choose|i: int|
                        0 <= i < self.engineers@.len() && (#[trigger] self.engineers@[i]).id == id;
                    assert(distinct_engineer_ids(self.engineers@));
                    assert(w == k);
                }
                return Ok(&self.engineers[k]);
            }
            k = k + 1;
        }
        Err(EngineError::NotFound)
    }

    /// Overwrites an engineer's mutable attributes. The capacity invariant
    /// is re-checked before any write; an unknown identity fails with
    /// `NotFound`.
    pub fn update_engineer(
        &mut self,
        id: u64,
        name: String,
        total_capacity: u32,
        ktlo_tax: u32,
        is_pm: bool,
    ) -> (r: Result<(), EngineError>)
        requires
            old(self).wf(),
        ensures
            final(self).wf(),
            final(self).projects@ == old(self).projects@,
            final(self).allocations@ == old(self).allocations@,
            final(self).scenarios@ == old(self).scenarios@,
            final(self).next_id == old(self).next_id,
            match r {
                Ok(()) => {
                    &&& ktlo_tax <= total_capacity
                    &&& has_engineer(old(self).engineers@, id)
                    &&& exists|i: int|
                        0 <= i < old(self).engineers@.len() && (#[trigger] old(
                            self,
                        ).engineers@[i]).id == id && final(self).engineers@ == old(
                            self,
                        ).engineers@.update(
                            i,
                            (Engineer { id, name, total_capacity, ktlo_tax, is_pm }),
                        )
                },
                Err(e) => {
                    &&& *final(self) == *old(self)
                    &&& (e == EngineError::Validation(InvalidField::KtloTax) <==> ktlo_tax
                        > total_capacity)
                    &&& (e == EngineError::NotFound <==> ktlo_tax <= total_capacity
                        && !has_engineer(old(self).engineers@, id))
                    &&& (e == EngineError::Validation(InvalidField::KtloTax) || e
                        == EngineError::NotFound)
                },
            },
    {
        if ktlo_tax > total_capacity {
            return Err(EngineError::Validation(InvalidField::KtloTax));
        }
        let n = self.engineers.len();
        let mut k: usize = 0;
        while k < n
            invariant
                *self == *old(self),
                old(self).wf(),
                ktlo_tax <= total_capacity,
                n == self.engineers@.len(),
                k <= n,
                forall|j: int| 0 <= j < k ==> (#[trigger] self.engineers@[j]).id != id,
            decreases n - k,
        {
            if self.engineers[k].id == id {
                let ghost pre = *self;
                self.engineers[k] = Engineer { id, name, total_capacity, ktlo_tax, is_pm };
                proof {
                    assert(self.engineers@ == pre.engineers@.update(
                        k as int,
                        (Engineer { id, name, total_capacity, ktlo_tax, is_pm }),
                    ));
                    lemma_registry_update_preserves(pre, *self, k as int);
                }
                return Ok(());
            }
            k = k + 1;
        }
        Err(EngineError::NotFound)
    }

    /// Registers a project under a fresh identity, not archived, and returns
    /// that identity.
    pub fn create_project(
        &mut self,
        name: String,
        priority: String,
        workflow_status: String,
        owner_id: Option<u64>,
    ) -> (r: Result<u64, EngineError>)
        requires
            old(self).wf(),
        ensures
            final(self).wf(),
            final(self).engineers@ == old(self).engineers@,
            final(self).allocations@ == old(self).allocations@,
            final(self).scenarios@ == old(self).scenarios@,
            match r {
                Ok(id) => {
                    &&& old(self).next_id < u64::MAX
                    &&& id == old(self).next_id
                    &&& final(self).projects@ == old(self).projects@.push(
                        (Project {
                            id,
                            name,
                            priority,
                            workflow_status,
                            owner_id,
                            archived: false,
                        }),
                    )
                    &&& final(self).next_id == old(self).next_id + 1
                },
                Err(e) => {
                    &&& *final(self) == *old(self)
                    &&& e == EngineError::Storage
                    &&& old(self).next_id == u64::MAX
                },
            },
    {
        if self.next_id == u64::MAX {
            return Err(EngineError::Storage);
        }
        let id = self.next_id;
        let project = Project { id, name, priority, workflow_status, owner_id, archived: false };
        self.projects.push(project);
        self.next_id = id + 1;
        proof {
            lemma_registry_push_preserves(*old(self), *self);
        }
        Ok(id)
    }

    /// Looks a project up by identity; fails with `NotFound` when no project
    /// carries it.
    pub fn get_project(&self, id: u64) -> (r: Result<&Project, EngineError>)
        requires
            self.wf(),
        ensures
            match r {
                Ok(p) => has_project(self.projects@, id) && p.id == id && *p == project_at(
                    self.projects@,
                    id,
                ),
                Err(e) => e == EngineError::NotFound && !has_project(self.projects@, id),
            },
    {
        let n = self.projects.len();
        let mut k: usize = 0;
        while k < n
            invariant
                self.wf(),
                n == self.projects@.len(),
                k <= n,
                forall|j: int| 0 <= j < k ==> (#[trigger] self.projects@[j]).id != id,
            decreases n - k,
        {
            if self.projects[k].id == id {
                proof {
                    let w = choose|i: int|
                        0 <= i < self.projects@.len() && (#[trigger] self.projects@[i]).id == id;
                    assert(distinct_project_ids(self.projects@));
                    assert(w == k);
                }
                return Ok(&self.projects[k]);
            }
            k = k + 1;
        }
        Err(EngineError::NotFound)
    }

    /// Archives a project: a logical soft-delete. The project drops out of
    /// the active listing and rejects new allocations, but its allocation
    /// history stays addressable. Archiving an already-archived project
    /// succeeds (it stays archived).
    pub fn archive_project(&mut self, id: u64) -> (r: Result<(), EngineError>)
        requires
            old(self).wf(),
        ensures
            final(self).wf(),
            final(self).engineers@ == old(self).engineers@,
            final(self).allocations@ == old(self).allocations@,
            final(self).scenarios@ == old(self).scenarios@,
            final(self).next_id == old(self).next_id,
            match r {
                Ok(()) => {
                    &&& has_project(old(self).projects@, id)
                    &&& exists|i: int|
                        0 <= i < old(self).projects@.len() && (#[trigger] old(
                            self,
                        ).projects@[i]).id == id && final(self).projects@ == old(
                            self,
                        ).projects@.update(
                            i,
                            (Project { archived: true, ..old(self).projects@[i] }),
                        )
                },
                Err(e) => {
                    &&& *final(self) == *old(self)
                    &&& e == EngineError::NotFound
                    &&& !has_project(old(self).projects@, id)
                },
            },
    {
        let n = self.projects.len();
        let mut k: usize = 0;
        while k < n
            invariant
                *self == *old(self),
                old(self).wf(),
                n == self.projects@.len(),
                k <= n,
                forall|j: int| 0 <= j < k ==> (#[trigger] self.projects@[j]).id != id,
            decreases n - k,
        {
            if self.projects[k].id == id {
                let ghost pre = *self;
                let archived = Project {
                    id: self.projects[k].id,
                    name: self.projects[k].name.clone(),
                    priority: self.projects[k].priority.clone(),
                    workflow_status: self.projects[k].workflow_status.clone(),
                    owner_id: self.projects[k].owner_id,
                    archived: true,
                };
                self.projects[k] = archived;
                proof {
                    lemma_registry_update_preserves(pre, *self, k as int);
                }
                return Ok(());
            }
            k = k + 1;
        }
        Err(EngineError::NotFound)
    }
}

/// Overwriting one registry entry in place, keeping its identity, leaves
/// the identity sets unchanged, so references and distinctness survive.
proof fn lemma_registry_update_preserves(pre: Engine, post: Engine, k: int)
    requires
        pre.wf(),
        post.allocations@ == pre.allocations@,
        post.scenarios@ == pre.scenarios@,
        post.next_id == pre.next_id,
        (post.engineers@ == pre.engineers@ && post.projects@.len() == pre.projects@.len() && 0 <= k
            < pre.projects@.len() && post.projects@ == pre.projects@.update(
            k,
            post.projects@[k],
        ) && post.projects@[k].id == pre.projects@[k].id) || (post.projects@ == pre.projects@
            && post.engineers@.len() == pre.engineers@.len() && 0 <= k < pre.engineers@.len()
            && post.engineers@ == pre.engineers@.update(k, post.engineers@[k])
            && post.engineers@[k].id == pre.engineers@[k].id && post.engineers@[k].wf()),
    ensures
        post.wf(),
{
    assert forall|i: int| 0 <= i < post.allocations@.len() implies {
        let a = #[trigger] post.allocations@[i];
        &&& has_project(post.projects@, a.project_id)
        &&& has_engineer(post.engineers@, a.engineer_id)
        &&& scope_resolves(post.scenarios@, a.scope)
    } by {
        let a = post.allocations@[i];
        let pj = choose|j: int|
            0 <= j < pre.projects@.len() && (#[trigger] pre.projects@[j]).id == a.project_id;
        assert(post.projects@[pj].id == a.project_id);
        let ej = choose|j: int|
            0 <= j < pre.engineers@.len() && (#[trigger] pre.engineers@[j]).id == a.engineer_id;
        assert(post.engineers@[ej].id == a.engineer_id);
    }
}

/// Appending an entity to a registry leaves every existence fact about the
/// old entries intact, so the allocations' references stay valid.
proof fn lemma_registry_push_preserves(pre: Engine, post: Engine)
    requires
        pre.refs_valid(),
        post.allocations@ == pre.allocations@,
        post.scenarios@ == pre.scenarios@,
        pre.engineers@.len() <= post.engineers@.len(),
        forall|i: int|
            0 <= i < pre.engineers@.len() ==> post.engineers@[i] == pre.engineers@[i],
        pre.projects@.len() <= post.projects@.len(),
        forall|i: int| 0 <= i < pre.projects@.len() ==> post.projects@[i] == pre.projects@[i],
    ensures
        post.refs_valid(),
{
    assert forall|i: int| 0 <= i < post.allocations@.len() implies {
        let a = #[trigger] post.allocations@[i];
        &&& has_project(post.projects@, a.project_id)
        &&& has_engineer(post.engineers@, a.engineer_id)
        &&& scope_resolves(post.scenarios@, a.scope)
    } by {
        let a = post.allocations@[i];
        let pj = choose|j: int|
            0 <= j < pre.projects@.len() && (#[trigger] pre.projects@[j]).id == a.project_id;
        assert(post.projects@[pj].id == a.project_id);
        let ej = choose|j: int|
            0 <= j < pre.engineers@.len() && (#[trigger] pre.engineers@[j]).id == a.engineer_id;
        assert(post.engineers@[ej].id == a.engineer_id);
    }
}

impl Engine {
    /// The index of the project carrying `id`, if any. Under the invariant
    /// the match is unique, so the entry found is `project_at` and its
    /// archived flag decides usability.
    fn find_project_index(&self, id: u64) -> (r: Option<usize>)
        requires
            self.wf(),
        ensures
            match r {
                Some(k) => {
                    &&& k < self.projects@.len()
                    &&& self.projects@[k as int].id == id
                    &&& self.projects@[k as int] == project_at(self.projects@, id)
                    &&& has_project(self.projects@, id)
                    &&& (project_usable(self.projects@, id) <==> !self.projects@[k as int].archived)
                },
                None => !has_project(self.projects@, id) && !project_usable(self.projects@, id),
            },
    {
        let n = self.projects.len();
        let mut k: usize = 0;
        while k < n
            invariant
                self.wf(),
                n == self.projects@.len(),
                k <= n,
                forall|j: int| 0 <= j < k ==> (#[trigger] self.projects@[j]).id != id,
            decreases n - k,
        {
            if self.projects[k].id == id {
                proof {
                    let w = choose|i: int|
                        0 <= i < self.projects@.len() && (#[trigger] self.projects@[i]).id == id;
                    assert(w == k);
                    if project_usable(self.projects@, id) {
                        let u = choose|i: int|
                            0 <= i < self.projects@.len() && (#[trigger] self.projects@[i]).id
                                == id && !self.projects@[i].archived;
                        assert(u == k);
                    }
                }
                return Some(k);
            }
            k = k + 1;
        }
        None
    }

    /// Is some engineer registered under `id`?
    fn engineer_exists(&self, id: u64) -> (r: bool)
        ensures
            r == has_engineer(self.engineers@, id),
    {
        let n = self.engineers.len();
        let mut k: usize = 0;
        while k < n
            invariant
                n == self.engineers@.len(),
                k <= n,
                forall|j: int| 0 <= j < k ==> (#[trigger] self.engineers@[j]).id != id,
            decreases n - k,
        {
            if self.engineers[k].id == id {
                return true;
            }
            k = k + 1;
        }
        false
    }

    /// Is some scenario registered under `id`?
    fn scenario_exists(&self, id: u64) -> (r: bool)
        ensures
            r == has_scenario(self.scenarios@, id),
    {
        let n = self.scenarios.len();
        let mut k: usize = 0;
        while k < n
            invariant
                n == self.scenarios@.len(),
                k <= n,
                forall|j: int| 0 <= j < k ==> (#[trigger] self.scenarios@[j]).id != id,
            decreases n - k,
        {
            if self.scenarios[k].id == id {
                return true;
            }
            k = k + 1;
        }
        false
    }

    /// Does an active allocation already occupy the slot
    /// (`project_id`, `engineer_id`, `start_week`) in `scope`?
    fn slot_is_taken(
        &self,
        project_id: u64,
        engineer_id: u64,
        start_week: &Option<u32>,
        scope: &Scope,
    ) -> (r: bool)
        ensures
            r == slot_taken(self.allocations@, project_id, engineer_id, *start_week, *scope),
    {
        let n = self.allocations.len();
        let mut k: usize = 0;
        while k < n
            invariant
                n == self.allocations@.len(),
                k <= n,
                forall|j: int|
                    0 <= j < k ==> !((#[trigger] self.allocations@[j]).status is Active
                        && self.allocations@[j].project_id == project_id
                        && self.allocations@[j].engineer_id == engineer_id
                        && self.allocations@[j].start_week == *start_week
                        && self.allocations@[j].scope == *scope),
            decreases n - k,
        {
            let a = &self.allocations[k];
            if a.status == AllocationStatus::Active && a.project_id == project_id
                && a.engineer_id == engineer_id && week_eq(&a.start_week, start_week) && a.scope
                == *scope {
                return true;
            }
            k = k + 1;
        }
        false
    }

    /// Creates an allocation in `scope`. Validation (positive hours; an
    /// existing, non-archived project; an existing engineer; a resolvable
    /// scope) runs before any write; then the slot must be free of any
    /// active allocation. On success the allocation is appended with a fresh
    /// identity and status Active, and returned.
    pub fn create_allocation(
        &mut self,
        project_id: u64,
        engineer_id: u64,
        role_required: String,
        hours_per_week: u32,
        allocation_type: String,
        start_week: Option<u32>,
        end_week: Option<u32>,
        scope: Scope,
    ) -> (r: Result<Allocation, EngineError>)
        requires
            old(self).wf(),
        ensures
            final(self).wf(),
            final(self).engineers@ == old(self).engineers@,
            final(self).projects@ == old(self).projects@,
            final(self).scenarios@ == old(self).scenarios@,
            match r {
                Ok(a) => {
                    &&& hours_per_week >= 1
                    &&& project_usable(old(self).projects@, project_id)
                    &&& has_engineer(old(self).engineers@, engineer_id)
                    &&& scope_resolves(old(self).scenarios@, scope)
                    &&& !slot_taken(
                        old(self).allocations@,
                        project_id,
                        engineer_id,
                        start_week,
                        scope,
                    )
                    &&& old(self).next_id < u64::MAX
                    &&& a == (Allocation {
                        id: old(self).next_id,
                        project_id,
                        engineer_id,
                        role_required,
                        hours_per_week,
                        allocation_type,
                        start_week,
                        end_week,
                        status: AllocationStatus::Active,
                        scope,
                    })
                    &&& final(self).allocations@ == old(self).allocations@.push(a)
                    &&& final(self).next_id == old(self).next_id + 1
                },
                Err(e) => {
                    &&& *final(self) == *old(self)
                    &&& (e == EngineError::Validation(InvalidField::Hours) <==> hours_per_week
                        == 0)
                    &&& (e == EngineError::Validation(InvalidField::ProjectRef)
                        <==> hours_per_week >= 1 && !project_usable(
                        old(self).projects@,
                        project_id,
                    ))
                    &&& (e == EngineError::Validation(InvalidField::EngineerRef)
                        <==> hours_per_week >= 1 && project_usable(old(self).projects@, project_id)
                        && !has_engineer(old(self).engineers@, engineer_id))
                    &&& (e == EngineError::Validation(InvalidField::ScenarioRef)
                        <==> hours_per_week >= 1 && project_usable(old(self).projects@, project_id)
                        && has_engineer(old(self).engineers@, engineer_id) && !scope_resolves(
                        old(self).scenarios@,
                        scope,
                    ))
                    &&& (e == EngineError::Conflict <==> hours_per_week >= 1 && project_usable(
                        old(self).projects@,
                        project_id,
                    ) && has_engineer(old(self).engineers@, engineer_id) && scope_resolves(
                        old(self).scenarios@,
                        scope,
                    ) && slot_taken(
                        old(self).allocations@,
                        project_id,
                        engineer_id,
                        start_week,
                        scope,
                    ))
                    &&& (e == EngineError::Storage <==> hours_per_week >= 1 && project_usable(
                        old(self).projects@,
                        project_id,
                    ) && has_engineer(old(self).engineers@, engineer_id) && scope_resolves(
                        old(self).scenarios@,
                        scope,
                    ) && !slot_taken(
                        old(self).allocations@,
                        project_id,
                        engineer_id,
                        start_week,
                        scope,
                    ) && old(self).next_id == u64::MAX)
                    &&& (e is Validation ==> e == EngineError::Validation(InvalidField::Hours)
                        || e == EngineError::Validation(InvalidField::ProjectRef) || e
                        == EngineError::Validation(InvalidField::EngineerRef) || e
                        == EngineError::Validation(InvalidField::ScenarioRef))
                    &&& (e is Validation || e is Conflict || e is Storage)
                },
            },
    {
        if hours_per_week == 0 {
            return Err(EngineError::Validation(InvalidField::Hours));
        }
        let project_ok = match self.find_project_index(project_id) {
            Some(k) => !self.projects[k].archived,
            None => false,
        };
        if !project_ok {
            return Err(EngineError::Validation(InvalidField::ProjectRef));
        }
        if !self.engineer_exists(engineer_id) {
            return Err(EngineError::Validation(InvalidField::EngineerRef));
        }
        let scope_ok = match scope {
            Scope::Live => true,
            Scope::Scenario(sid) => self.scenario_exists(sid),
        };
        if !scope_ok {
            return Err(EngineError::Validation(InvalidField::ScenarioRef));
        }
        if self.slot_is_taken(project_id, engineer_id, &start_week, &scope) {
            return Err(EngineError::Conflict);
        }
        if self.next_id == u64::MAX {
            return Err(EngineError::Storage);
        }
        let allocation = Allocation {
            id: self.next_id,
            project_id,
            engineer_id,
            role_required,
            hours_per_week,
            allocation_type,
            start_week,
            end_week,
            status: AllocationStatus::Active,
            scope,
        };
        let created = allocation.clone();
        let ghost pre = *self;
        self.allocations.push(allocation);
        self.next_id = self.next_id + 1;
        proof {
            lemma_allocation_push_wf(pre, *self, created);
        }
        Ok(created)
    }

    /// Removes an allocation: the one legal status transition,
    /// `Active -> Removed`. The removed row is retained for history; its
    /// slot becomes free for a future allocation. Fails with `NotFound` both
    /// for an unknown identity and for an already-removed allocation, so a
    /// caller can tell "already gone" from "just removed".
    pub fn remove_allocation(&mut self, id: u64) -> (r: Result<(), EngineError>)
        requires
            old(self).wf(),
        ensures
            final(self).wf(),
            final(self).engineers@ == old(self).engineers@,
            final(self).projects@ == old(self).projects@,
            final(self).scenarios@ == old(self).scenarios@,
            final(self).next_id == old(self).next_id,
            match r {
                Ok(()) => {
                    &&& has_active_allocation(old(self).allocations@, id)
                    &&& exists|i: int|
                        0 <= i < old(self).allocations@.len() && (#[trigger] old(
                            self,
                        ).allocations@[i]).id == id && old(self).allocations@[i].status is Active
                            && final(self).allocations@ == old(self).allocations@.update(
                            i,
                            (Allocation { status: AllocationStatus::Removed, ..old(
                                self,
                            ).allocations@[i] }),
                        )
                },
                Err(e) => {
                    &&& *final(self) == *old(self)
                    &&& e == EngineError::NotFound
                    &&& !has_active_allocation(old(self).allocations@, id)
                },
            },
    {
        let n = self.allocations.len();
        let mut k: usize = 0;
        while k < n
            invariant
                *self == *old(self),
                old(self).wf(),
                n == self.allocations@.len(),
                k <= n,
                forall|j: int| 0 <= j < k ==> (#[trigger] self.allocations@[j]).id != id,
            decreases n - k,
        {
            if self.allocations[k].id == id {
                if self.allocations[k].status == AllocationStatus::Active {
                    let ghost pre = *self;
                    let removed = Allocation {
                        id: self.allocations[k].id,
                        project_id: self.allocations[k].project_id,
                        engineer_id: self.allocations[k].engineer_id,
                        role_required: self.allocations[k].role_required.clone(),
                        hours_per_week: self.allocations[k].hours_per_week,
                        allocation_type: self.allocations[k].allocation_type.clone(),
                        start_week: self.allocations[k].start_week,
                        end_week: self.allocations[k].end_week,
                        status: AllocationStatus::Removed,
                        scope: self.allocations[k].scope,
                    };
                    self.allocations[k] = removed;
                    proof {
                        assert(self.allocations@ == pre.allocations@.update(
                            k as int,
                            (Allocation { status: AllocationStatus::Removed, ..pre.allocations@[k as int] }),
                        ));
                        lemma_allocation_remove_wf(pre, *self, k as int);
                    }
                    return Ok(());
                } else {
                    proof {
                        if has_active_allocation(self.allocations@, id) {
                            let w = choose|i: int|
                                0 <= i < self.allocations@.len() && (
                                #[trigger] self.allocations@[i]).id == id
                                    && self.allocations@[i].status is Active;
                            assert(w == k);
                        }
                    }
                    return Err(EngineError::NotFound);
                }
            }
            k = k + 1;
        }
        Err(EngineError::NotFound)
    }
}

/// Query filters for the project listing: each present field must match
/// exactly; absent fields do not constrain.
pub struct ProjectFilters {
    pub status: Option<String>,
    pub priority: Option<String>,
    pub owner_id: Option<u64>,
}

/// A partial update of a project's mutable attributes: an absent field
/// leaves the stored value unchanged.
pub struct ProjectUpdate {
    pub name: Option<String>,
    pub priority: Option<String>,
    pub workflow_status: Option<String>,
    pub owner_id: Option<u64>,
}

/// Does the (non-archived) project pass every present filter?
pub open spec fn project_passes(p: Project, f: ProjectFilters) -> bool {
    &&& !p.archived
    &&& match f.status {
        Some(s) => p.workflow_status@ == s@,
        None => true,
    }
    &&& match f.priority {
        Some(s) => p.priority@ == s@,
        None => true,
    }
    &&& match f.owner_id {
        Some(o) => p.owner_id == Some(o),
        None => true,
    }
}

/// The projects of `s`, in registration order, that pass the filters.
pub open spec fn filtered_projects(s: Seq<Project>, f: ProjectFilters) -> Seq<Project>
    decreases s.len(),
{
    if s.len() == 0 {
        Seq::empty()
    } else {
        filtered_projects(s.drop_last(), f) + if project_passes(s.last(), f) {
            seq![s.last()]
        } else {
            Seq::empty()
        }
    }
}

/// The project as it stands after a partial update: present fields replace
/// the stored ones, absent fields are kept; identity and archival state
/// never change this way.
pub open spec fn project_after_update(p: Project, u: ProjectUpdate) -> Project {
    Project {
        id: p.id,
        name: match u.name {
            Some(n) => n,
            None => p.name,
        },
        priority: match u.priority {
            Some(x) => x,
            None => p.priority,
        },
        workflow_status: match u.workflow_status {
            Some(x) => x,
            None => p.workflow_status,
        },
        owner_id: match u.owner_id {
            Some(o) => Some(o),
            None => p.owner_id,
        },
        archived: p.archived,
    }
}

/// The per-engineer workload rows: each listed active allocation of the
/// engineer in the scope, joined with the owning project's name.
pub open spec fn workload_view(
    s: Seq<Allocation>,
    projects: Seq<Project>,
    engineer_id: u64,
    scope: Scope,
) -> Seq<AllocationView>
    decreases s.len(),
{
    if s.len() == 0 {
        Seq::empty()
    } else {
        workload_view(s.drop_last(), projects, engineer_id, scope) + if listed(
            s.last(),
            engineer_id,
            scope,
            false,
        ) {
            seq![
                (AllocationView {
                    id: s.last().id,
                    project_name: project_at(projects, s.last().project_id).name,
                    role_required: s.last().role_required,
                    hours_per_week: s.last().hours_per_week,
                }),
            ]
        } else {
            Seq::empty()
        }
    }
}

impl Engine {
    /// The non-archived projects passing the filters, in registration
    /// order.
    pub fn list_projects(&self, filters: &ProjectFilters) -> (r: Vec<Project>)
        ensures
            r@ == filtered_projects(self.projects@, *filters),
    {
        let mut out: Vec<Project> = Vec::new();
        let n = self.projects.len();
        let mut i: usize = 0;
        while i < n
            invariant
                n == self.projects@.len(),
                i <= n,
                out@ == filtered_projects(self.projects@.subrange(0, i as int), *filters),
            decreases n - i,
        {
            let p = &self.projects[i];
            let status_ok = match &filters.status {
                Some(s) => p.workflow_status == *s,
                None => true,
            };
            let priority_ok = match &filters.priority {
                Some(s) => p.priority == *s,
                None => true,
            };
            let owner_ok = match &filters.owner_id {
                Some(o) => match &p.owner_id {
                    Some(po) => *po == *o,
                    None => false,
                },
                None => true,
            };
            let ghost prefix = self.projects@.subrange(0, i as int);
            let ghost prefix1 = self.projects@.subrange(0, i as int + 1);
            if !p.archived && status_ok && priority_ok && owner_ok {
                out.push(p.clone());
            }
            proof {
                assert(prefix1.drop_last() =~= prefix);
                assert(prefix1.last() == self.projects@[i as int]);
                if project_passes(self.projects@[i as int], *filters) {
                    assert(out@ =~= filtered_projects(prefix, *filters) + seq![
                        self.projects@[i as int],
                    ]);
                } else {
                    assert(!(!self.projects@[i as int].archived && status_ok && priority_ok
                        && owner_ok));
                }
            }
            i = i + 1;
        }
        proof {
            assert(self.projects@.subrange(0, n as int) =~= self.projects@);
        }
        out
    }

    /// Applies a partial update to the project carrying `id`: present
    /// fields replace stored values, absent fields stay. Fails with
    /// `NotFound` for an unknown identity.
    #[verifier::loop_isolation(false)]
    pub fn update_project(&mut self, id: u64, changes: ProjectUpdate) -> (r: Result<
        (),
        EngineError,
    >)
        requires
            old(self).wf(),
        ensures
            final(self).wf(),
            final(self).engineers@ == old(self).engineers@,
            final(self).allocations@ == old(self).allocations@,
            final(self).scenarios@ == old(self).scenarios@,
            final(self).next_id == old(self).next_id,
            match r {
                Ok(()) => {
                    &&& has_project(old(self).projects@, id)
                    &&& exists|i: int|
                        0 <= i < old(self).projects@.len() && (#[trigger] old(
                            self,
                        ).projects@[i]).id == id && final(self).projects@ == old(
                            self,
                        ).projects@.update(
                            i,
                            project_after_update(old(self).projects@[i], changes),
                        )
                },
                Err(e) => {
                    &&& *final(self) == *old(self)
                    &&& e == EngineError::NotFound
                    &&& !has_project(old(self).projects@, id)
                },
            },
    {
        let ProjectUpdate { name, priority, workflow_status, owner_id } = changes;
        let n = self.projects.len();
        let mut k: usize = 0;
        while k < n
            invariant
                *self == *old(self),
                old(self).wf(),
                n == self.projects@.len(),
                k <= n,
                forall|j: int| 0 <= j < k ==> (#[trigger] self.projects@[j]).id != id,
            decreases n - k,
        {
            if self.projects[k].id == id {
                let ghost pre = *self;
                let updated = Project {
                    id: self.projects[k].id,
                    name: match name {
                        Some(x) => x,
                        None => self.projects[k].name.clone(),
                    },
                    priority: match priority {
                        Some(x) => x,
                        None => self.projects[k].priority.clone(),
                    },
                    workflow_status: match workflow_status {
                        Some(x) => x,
                        None => self.projects[k].workflow_status.clone(),
                    },
                    owner_id: match owner_id {
                        Some(o) => Some(o),
                        None => self.projects[k].owner_id,
                    },
                    archived: self.projects[k].archived,
                };
                self.projects[k] = updated;
                proof {
                    assert(self.projects@ == pre.projects@.update(
                        k as int,
                        project_after_update(pre.projects@[k as int], changes),
                    ));
                    lemma_registry_update_preserves(pre, *self, k as int);
                }
                return Ok(());
            }
            k = k + 1;
        }
        Err(EngineError::NotFound)
    }

    /// The allocations of `engineer_id` in `scope`, in creation order;
    /// removed rows appear only when `include_removed` is set.
    pub fn list_allocations(
        &self,
        engineer_id: u64,
        scope: Scope,
        include_removed: bool,
    ) -> (r: Vec<Allocation>)
        ensures
            r@ == listing(self.allocations@, engineer_id, scope, include_removed),
    {
        let mut out: Vec<Allocation> = Vec::new();
        let n = self.allocations.len();
        let mut i: usize = 0;
        while i < n
            invariant
                n == self.allocations@.len(),
                i <= n,
                out@ == listing(
                    self.allocations@.subrange(0, i as int),
                    engineer_id,
                    scope,
                    include_removed,
                ),
            decreases n - i,
        {
            let a = &self.allocations[i];
            let ghost prefix = self.allocations@.subrange(0, i as int);
            let ghost prefix1 = self.allocations@.subrange(0, i as int + 1);
            if a.engineer_id == engineer_id && a.scope == scope && (include_removed || a.status
                == AllocationStatus::Active) {
                out.push(a.clone());
            }
            proof {
                assert(prefix1.drop_last() =~= prefix);
                assert(prefix1.last() == self.allocations@[i as int]);
                if listed(self.allocations@[i as int], engineer_id, scope, include_removed) {
                    assert(out@ =~= listing(prefix, engineer_id, scope, include_removed) + seq![
                        self.allocations@[i as int],
                    ]);
                }
            }
            i = i + 1;
        }
        proof {
            assert(self.allocations@.subrange(0, n as int) =~= self.allocations@);
        }
        out
    }

    /// The engineer's remaining hours in `scope` for `week`: total capacity
    /// minus the fixed overhead tax minus every active allocation covering
    /// the week. A negative result signals over-allocation and is returned
    /// as is. Fails with `NotFound` for an unknown engineer. A pure read:
    /// the engine is not changed.
    pub fn compute_available_hours(&self, engineer_id: u64, scope: Scope, week: u32) -> (r: Result<
        i128,
        EngineError,
    >)
        requires
            self.wf(),
        ensures
            match r {
                Ok(h) => has_engineer(self.engineers@, engineer_id) && h == available_hours(
                    engineer_at(self.engineers@, engineer_id),
                    self.allocations@,
                    scope,
                    week,
                ),
                Err(e) => e == EngineError::NotFound && !has_engineer(
                    self.engineers@,
                    engineer_id,
                ),
            },
    {
        let engineer = match self.get_engineer(engineer_id) {
            Ok(e) => e,
            Err(e) => {
                return Err(e);
            },
        };
        let capacity = engineer.total_capacity;
        let tax = engineer.ktlo_tax;
        let mut committed: i128 = 0;
        let n = self.allocations.len();
        let mut i: usize = 0;
        while i < n
            invariant
                n == self.allocations@.len(),
                i <= n,
                committed == committed_hours(
                    self.allocations@.subrange(0, i as int),
                    engineer_id,
                    scope,
                    week,
                ),
                0 <= committed <= (i as int) * 0x1_0000_0000,
            decreases n - i,
        {
            let a = &self.allocations[i];
            let ghost prefix = self.allocations@.subrange(0, i as int);
            let ghost prefix1 = self.allocations@.subrange(0, i as int + 1);
            let start_ok = match a.start_week {
                Some(s) => s <= week,
                None => true,
            };
            let end_ok = match a.end_week {
                Some(e) => week <= e,
                None => true,
            };
            if a.engineer_id == engineer_id && a.scope == scope && a.status
                == AllocationStatus::Active && start_ok && end_ok {
                committed = committed + a.hours_per_week as i128;
            }
            proof {
                assert(prefix1.drop_last() =~= prefix);
                assert(prefix1.last() == self.allocations@[i as int]);
            }
            i = i + 1;
        }
        proof {
            assert(self.allocations@.subrange(0, n as int) =~= self.allocations@);
        }
        Ok(capacity as i128 - tax as i128 - committed)
    }

    /// The engineer's active allocations in `scope`, each joined with the
    /// name of its project, for workload views. A pure read.
    pub fn engineer_workload(&self, engineer_id: u64, scope: Scope) -> (r: Vec<AllocationView>)
        requires
            self.wf(),
        ensures
            r@ == workload_view(self.allocations@, self.projects@, engineer_id, scope),
    {
        let mut out: Vec<AllocationView> = Vec::new();
        let n = self.allocations.len();
        let mut i: usize = 0;
        while i < n
            invariant
                self.wf(),
                n == self.allocations@.len(),
                i <= n,
                out@ == workload_view(
                    self.allocations@.subrange(0, i as int),
                    self.projects@,
                    engineer_id,
                    scope,
                ),
            decreases n - i,
        {
            let a = &self.allocations[i];
            let ghost prefix = self.allocations@.subrange(0, i as int);
            let ghost prefix1 = self.allocations@.subrange(0, i as int + 1);
            if a.engineer_id == engineer_id && a.scope == scope && a.status
                == AllocationStatus::Active {
                let k = match self.find_project_index(a.project_id) {
                    Some(k) => k,
                    None => {
                        proof {
                            assert(has_project(self.projects@, a.project_id));
                        }
                        vstd::pervasive::unreached()
                    },
                };
                out.push(
                    AllocationView {
                        id: a.id,
                        project_name: self.projects[k].name.clone(),
                        role_required: a.role_required.clone(),
                        hours_per_week: a.hours_per_week,
                    },
                );
            }
            proof {
                assert(prefix1.drop_last() =~= prefix);
                assert(prefix1.last() == self.allocations@[i as int]);
                if listed(self.allocations@[i as int], engineer_id, scope, false) {
                    assert(out@ =~= workload_view(prefix, self.projects@, engineer_id, scope)
                        + seq![
                        (AllocationView {
                            id: self.allocations@[i as int].id,
                            project_name: project_at(
                                self.projects@,
                                self.allocations@[i as int].project_id,
                            ).name,
                            role_required: self.allocations@[i as int].role_required,
                            hours_per_week: self.allocations@[i as int].hours_per_week,
                        }),
                    ]);
                }
            }
            i = i + 1;
        }
        proof {
            assert(self.allocations@.subrange(0, n as int) =~= self.allocations@);
        }
        out
    }
}

impl Engine {
    /// All scenarios, in creation order.
    pub fn list_scenarios(&self) -> (r: &Vec<Scenario>)
        ensures
            r@ == self.scenarios@,
    {
        &self.scenarios
    }

    /// Branches the live plan into a fresh scenario: persists the scenario
    /// metadata (timestamped by the caller), then clones every live
    /// allocation - active and removed alike, each status kept faithfully -
    /// under a fresh identity and the new scenario's scope. Live rows are
    /// untouched; an empty live set yields a scenario with zero clones, not
    /// an error. Returns the scenario and the number of rows cloned. The
    /// whole branch happens in one call: no reader ever observes a
    /// partially-populated scenario.
    pub fn create_scenario(
        &mut self,
        name: String,
        description: Option<String>,
        created_by: u64,
        now_millis: i64,
    ) -> (r: Result<(Scenario, usize), EngineError>)
        requires
            old(self).wf(),
        ensures
            final(self).wf(),
            final(self).engineers@ == old(self).engineers@,
            final(self).projects@ == old(self).projects@,
            match r {
                Ok((scen, count)) => {
                    let live = live_allocations(old(self).allocations@);
                    &&& old(self).next_id + 1 + live.len() <= u64::MAX
                    &&& scen == (Scenario {
                        id: old(self).next_id,
                        name,
                        description,
                        created_by,
                        created_at_millis: now_millis,
                    })
                    &&& final(self).scenarios@ == old(self).scenarios@.push(scen)
                    &&& count == live.len()
                    &&& final(self).allocations@.len() == old(self).allocations@.len()
                        + live.len()
                    &&& (forall|j: int|
                        0 <= j < old(self).allocations@.len() ==> final(self).allocations@[j]
                            == old(self).allocations@[j])
                    &&& (forall|j: int|
                        0 <= j < live.len() ==> final(self).allocations@[old(
                            self,
                        ).allocations@.len() + j] == cloned_into(
                            live[j],
                            (old(self).next_id + 1 + j) as u64,
                            scen.id,
                        ))
                    &&& final(self).next_id == old(self).next_id + 1 + live.len()
                },
                Err(e) => {
                    &&& *final(self) == *old(self)
                    &&& e == EngineError::Storage
                    &&& old(self).next_id + 1 + live_allocations(old(self).allocations@).len()
                        > u64::MAX
                },
            },
    {
        let ghost pre = *old(self);
        // First pass: how many live rows will be cloned.
        let n = self.allocations.len();
        let mut count: usize = 0;
        let mut i: usize = 0;
        while i < n
            invariant
                *self == pre,
                n == pre.allocations@.len(),
                i <= n,
                count <= i,
                count == live_allocations(pre.allocations@.subrange(0, i as int)).len(),
            decreases n - i,
        {
            let ghost prefix = pre.allocations@.subrange(0, i as int);
            let ghost prefix1 = pre.allocations@.subrange(0, i as int + 1);
            if match self.allocations[i].scope {
                Scope::Live => true,
                Scope::Scenario(_) => false,
            } {
                count = count + 1;
            }
            proof {
                assert(prefix1.drop_last() =~= prefix);
                assert(prefix1.last() == pre.allocations@[i as int]);
            }
            i = i + 1;
        }
        proof {
            assert(pre.allocations@.subrange(0, n as int) =~= pre.allocations@);
        }
        // All identities needed (one scenario, one per clone) must fit.
        if (self.next_id as u128) + 1 + (count as u128) > u64::MAX as u128 {
            return Err(EngineError::Storage);
        }
        let sid = self.next_id;
        let scenario = Scenario {
            id: sid,
            name,
            description,
            created_by,
            created_at_millis: now_millis,
        };
        let created = scenario.clone();
        let ghost gscen = scenario;
        self.scenarios.push(scenario);
        self.next_id = sid + 1;
        // Second pass: clone each live row under a fresh identity.
        let ghost live = live_allocations(pre.allocations@);
        let mut i: usize = 0;
        while i < n
            invariant
                n == pre.allocations@.len(),
                i <= n,
                self.engineers@ == pre.engineers@,
                self.projects@ == pre.projects@,
                self.scenarios@ == pre.scenarios@.push(gscen),
                gscen.id == sid,
                sid == pre.next_id,
                live == live_allocations(pre.allocations@),
                sid + 1 + live.len() <= u64::MAX,
                self.allocations@.len() == n + live_allocations(
                    pre.allocations@.subrange(0, i as int),
                ).len(),
                forall|j: int|
                    0 <= j < n ==> #[trigger] self.allocations@[j] == pre.allocations@[j],
                forall|j: int|
                    0 <= j < live_allocations(pre.allocations@.subrange(0, i as int)).len()
                        ==> #[trigger] self.allocations@[n + j] == cloned_into(
                        live_allocations(pre.allocations@.subrange(0, i as int))[j],
                        (sid + 1 + j) as u64,
                        sid,
                    ),
                self.next_id == sid + 1 + live_allocations(
                    pre.allocations@.subrange(0, i as int),
                ).len(),
            decreases n - i,
        {
            let ghost prefix = pre.allocations@.subrange(0, i as int);
            let ghost prefix1 = pre.allocations@.subrange(0, i as int + 1);
            proof {
                assert(prefix1.drop_last() =~= prefix);
                assert(prefix1.last() == pre.allocations@[i as int]);
                lemma_live_prefix_len(pre.allocations@, i as int + 1);
            }
            let is_live = match self.allocations[i].scope {
                Scope::Live => true,
                Scope::Scenario(_) => false,
            };
            if is_live {
                let src = &self.allocations[i];
                let copy = Allocation {
                    id: self.next_id,
                    project_id: src.project_id,
                    engineer_id: src.engineer_id,
                    role_required: src.role_required.clone(),
                    hours_per_week: src.hours_per_week,
                    allocation_type: src.allocation_type.clone(),
                    start_week: src.start_week,
                    end_week: src.end_week,
                    status: src.status,
                    scope: Scope::Scenario(sid),
                };
                self.allocations.push(copy);
                self.next_id = self.next_id + 1;
                proof {
                    let lp = live_allocations(prefix);
                    let lp1 = live_allocations(prefix1);
                    assert(lp1 =~= lp + seq![pre.allocations@[i as int]]);
                    assert(lp1[lp.len() as int] == pre.allocations@[i as int]);
                    assert(self.allocations@[n + lp.len()] == cloned_into(
                        lp1[lp.len() as int],
                        (sid + 1 + lp.len()) as u64,
                        sid,
                    ));
                }
            } else {
                proof {
                    assert(live_allocations(prefix1) =~= live_allocations(prefix));
                }
            }
            i = i + 1;
        }
        proof {
            assert(pre.allocations@.subrange(0, n as int) =~= pre.allocations@);
            lemma_scenario_clone_wf(pre, *self, gscen);
        }
        Ok((created, count))
    }

    /// `create_scenario`, timestamped from the wall clock. The clock's
    /// reading is stored as opaque metadata; every other effect is exactly
    /// that of `create_scenario`, whatever instant the clock reports.
    pub fn create_scenario_now(
        &mut self,
        name: String,
        description: Option<String>,
        created_by: u64,
    ) -> (r: Result<(Scenario, usize), EngineError>)
        requires
            old(self).wf(),
        ensures
            final(self).wf(),
            final(self).engineers@ == old(self).engineers@,
            final(self).projects@ == old(self).projects@,
            match r {
                Ok((scen, count)) => {
                    let live = live_allocations(old(self).allocations@);
                    &&& old(self).next_id + 1 + live.len() <= u64::MAX
                    &&& scen.id == old(self).next_id
                    &&& scen.name == name
                    &&& scen.description == description
                    &&& scen.created_by == created_by
                    &&& final(self).scenarios@ == old(self).scenarios@.push(scen)
                    &&& count == live.len()
                    &&& final(self).allocations@.len() == old(self).allocations@.len()
                        + live.len()
                    &&& (forall|j: int|
                        0 <= j < old(self).allocations@.len() ==> final(self).allocations@[j]
                            == old(self).allocations@[j])
                    &&& (forall|j: int|
                        0 <= j < live.len() ==> final(self).allocations@[old(
                            self,
                        ).allocations@.len() + j] == cloned_into(
                            live[j],
                            (old(self).next_id + 1 + j) as u64,
                            scen.id,
                        ))
                    &&& final(self).next_id == old(self).next_id + 1 + live.len()
                },
                Err(e) => {
                    &&& *final(self) == *old(self)
                    &&& e == EngineError::Storage
                    &&& old(self).next_id + 1 + live_allocations(old(self).allocations@).len()
                        > u64::MAX
                },
            },
    {
        let now_millis = current_timestamp_millis();
        self.create_scenario(name, description, created_by, now_millis)
    }
}

/// Branching preserves the engine invariant: the new scenario's identity is
/// fresh, every clone's identity is fresh and mutually distinct, clones
/// inherit positive hours and valid references from their live sources, and
/// the active-slot uniqueness survives because all clones land in the one
/// new scope while their sources were unique within Live.
proof fn lemma_scenario_clone_wf(pre: Engine, post: Engine, scen: Scenario)
    requires
        pre.wf(),
        scen.id == pre.next_id,
        post.engineers@ == pre.engineers@,
        post.projects@ == pre.projects@,
        post.scenarios@ == pre.scenarios@.push(scen),
        post.allocations@.len() == pre.allocations@.len() + live_allocations(
            pre.allocations@,
        ).len(),
        forall|j: int|
            0 <= j < pre.allocations@.len() ==> #[trigger] post.allocations@[j]
                == pre.allocations@[j],
        forall|j: int|
            0 <= j < live_allocations(pre.allocations@).len() ==> #[trigger] post.allocations@[
                pre.allocations@.len() + j] == cloned_into(
                live_allocations(pre.allocations@)[j],
                (scen.id + 1 + j) as u64,
                scen.id,
            ),
        post.next_id == scen.id + 1 + live_allocations(pre.allocations@).len(),
        scen.id + 1 + live_allocations(pre.allocations@).len() <= u64::MAX,
    ensures
        post.wf(),
{
    let s = pre.allocations@;
    let t = post.allocations@;
    let live = live_allocations(s);
    let n = s.len() as int;
    let sid = scen.id;
    lemma_live_contains(s);
    lemma_live_unique(s);
    assert forall|k: int| n <= k < t.len() implies #[trigger] t[k] == cloned_into(
        live[k - n],
        (sid + 1 + (k - n)) as u64,
        sid,
    ) by {
        assert(t[n + (k - n)] == cloned_into(live[k - n], (sid + 1 + (k - n)) as u64, sid));
    }
    // Scenario identities stay distinct: the new one is above all old ones.
    assert forall|i: int, j: int|
        0 <= i < post.scenarios@.len() && 0 <= j < post.scenarios@.len() && i != j implies (
    #[trigger] post.scenarios@[i]).id != (#[trigger] post.scenarios@[j]).id by {
        let m = pre.scenarios@.len() as int;
        if i < m && j < m {
            assert(post.scenarios@[i] == pre.scenarios@[i]);
            assert(post.scenarios@[j] == pre.scenarios@[j]);
        } else if j == m {
            assert(post.scenarios@[i] == pre.scenarios@[i]);
            assert(post.scenarios@[i].id < pre.next_id);
            assert(post.scenarios@[j] == scen);
        } else {
            assert(i == m);
            assert(post.scenarios@[j] == pre.scenarios@[j]);
            assert(post.scenarios@[j].id < pre.next_id);
            assert(post.scenarios@[i] == scen);
        }
    }
    // Old scopes never equal the new scenario's scope.
    assert forall|i: int| 0 <= i < n implies !((#[trigger] t[i]).scope == Scope::Scenario(
        sid,
    )) by {
        assert(t[i] == s[i]);
        match s[i].scope {
            Scope::Live => {},
            Scope::Scenario(x) => {
                let w = choose|w: int|
                    0 <= w < pre.scenarios@.len() && (#[trigger] pre.scenarios@[w]).id == x;
                assert(pre.scenarios@[w].id < pre.next_id);
            },
        }
    }
    // Active-slot uniqueness over the extended store.
    assert forall|i: int, j: int|
        0 <= i < t.len() && 0 <= j < t.len() && i != j && t[i].status is Active
            && t[j].status is Active implies !same_slot(#[trigger] t[i], #[trigger] t[j]) by {
        if i < n && j < n {
            assert(t[i] == s[i] && t[j] == s[j]);
        } else if i < n && j >= n {
            assert(t[j] == cloned_into(live[j - n], (sid + 1 + (j - n)) as u64, sid));
            assert(t[j].scope == Scope::Scenario(sid));
        } else if j < n && i >= n {
            assert(t[i] == cloned_into(live[i - n], (sid + 1 + (i - n)) as u64, sid));
            assert(t[i].scope == Scope::Scenario(sid));
        } else {
            let ji = i - n;
            let jj = j - n;
            assert(t[i] == cloned_into(live[ji], (sid + 1 + ji) as u64, sid));
            assert(t[j] == cloned_into(live[jj], (sid + 1 + jj) as u64, sid));
            assert(live[ji].status is Active && live[jj].status is Active);
            assert(live[ji].scope is Live && live[jj].scope is Live);
            assert(!same_slot(live[ji], live[jj]));
        }
    }
    // Allocation identities stay distinct; clones are numbered above sid.
    assert forall|i: int, j: int|
        0 <= i < t.len() && 0 <= j < t.len() && i != j implies (#[trigger] t[i]).id != (
    #[trigger] t[j]).id by {
        if i < n && j < n {
            assert(t[i] == s[i] && t[j] == s[j]);
        } else if i < n && j >= n {
            assert(t[i] == s[i] && t[i].id < pre.next_id);
            assert(t[j] == cloned_into(live[j - n], (sid + 1 + (j - n)) as u64, sid));
            assert(t[j].id == sid + 1 + (j - n));
        } else if j < n && i >= n {
            assert(t[j] == s[j] && t[j].id < pre.next_id);
            assert(t[i] == cloned_into(live[i - n], (sid + 1 + (i - n)) as u64, sid));
            assert(t[i].id == sid + 1 + (i - n));
        } else {
            assert(t[i] == cloned_into(live[i - n], (sid + 1 + (i - n)) as u64, sid));
            assert(t[j] == cloned_into(live[j - n], (sid + 1 + (j - n)) as u64, sid));
        }
    }
    // Bounded identities, positive hours, valid references.
    assert forall|i: int| 0 <= i < t.len() implies {
        let b = #[trigger] t[i];
        &&& b.id < post.next_id
        &&& b.hours_per_week >= 1
        &&& has_project(post.projects@, b.project_id)
        &&& has_engineer(post.engineers@, b.engineer_id)
        &&& scope_resolves(post.scenarios@, b.scope)
    } by {
        if i < n {
            assert(t[i] == s[i]);
            assert(s[i].id < pre.next_id && pre.next_id <= post.next_id);
            match s[i].scope {
                Scope::Live => {},
                Scope::Scenario(x) => {
                    let w = choose|w: int|
                        0 <= w < pre.scenarios@.len() && (#[trigger] pre.scenarios@[w]).id == x;
                    assert(post.scenarios@[w].id == x);
                },
            }
        } else {
            let jj = i - n;
            assert(t[i] == cloned_into(live[jj], (sid + 1 + jj) as u64, sid));
            assert(s.contains(live[jj]));
            let w = choose|w: int| 0 <= w < s.len() && s[w] == live[jj];
            assert(s[w].hours_per_week >= 1);
            assert(has_project(pre.projects@, s[w].project_id));
            assert(has_engineer(pre.engineers@, s[w].engineer_id));
            assert(t[i].scope == Scope::Scenario(sid));
            assert(post.scenarios@[pre.scenarios@.len() as int] == scen);
        }
    }
    assert forall|i: int|
        0 <= i < post.scenarios@.len() implies (#[trigger] post.scenarios@[i]).id
            < post.next_id by {
        if i < pre.scenarios@.len() {
            assert(post.scenarios@[i] == pre.scenarios@[i]);
        } else {
            assert(post.scenarios@[i] == scen);
        }
    }
}

/// An `Option<u32>` equality test usable from verified code.
fn week_eq(a: &Option<u32>, b: &Option<u32>) -> (r: bool)
    ensures
        r == (*a == *b),
{
    match (a, b) {
        (None, None) => true,
        (Some(x), Some(y)) => x == y,
        _ => false,
    }
}

/// Appending a fresh, active, positive-hours allocation into a free slot
/// preserves the engine invariant.
proof fn lemma_allocation_push_wf(pre: Engine, post: Engine, a: Allocation)
    requires
        pre.wf(),
        a.id == pre.next_id,
        pre.next_id < u64::MAX,
        post.next_id == pre.next_id + 1,
        post.engineers@ == pre.engineers@,
        post.projects@ == pre.projects@,
        post.scenarios@ == pre.scenarios@,
        post.allocations@ == pre.allocations@.push(a),
        a.hours_per_week >= 1,
        a.status is Active,
        !slot_taken(pre.allocations@, a.project_id, a.engineer_id, a.start_week, a.scope),
        has_project(pre.projects@, a.project_id),
        has_engineer(pre.engineers@, a.engineer_id),
        scope_resolves(pre.scenarios@, a.scope),
    ensures
        post.wf(),
{
    let s = pre.allocations@;
    let t = post.allocations@;
    assert forall|i: int, j: int|
        0 <= i < t.len() && 0 <= j < t.len() && i != j && t[i].status is Active
            && t[j].status is Active implies !same_slot(#[trigger] t[i], #[trigger] t[j]) by {
        if i < s.len() && j < s.len() {
            assert(t[i] == s[i] && t[j] == s[j]);
        } else if j == s.len() {
            assert(t[i] == s[i] && t[j] == a);
            if same_slot(s[i], a) {
                assert(slot_taken(s, a.project_id, a.engineer_id, a.start_week, a.scope));
            }
        } else {
            assert(i == s.len());
            assert(t[j] == s[j] && t[i] == a);
            if same_slot(a, s[j]) {
                assert(slot_taken(s, a.project_id, a.engineer_id, a.start_week, a.scope));
            }
        }
    }
    assert forall|i: int, j: int|
        0 <= i < t.len() && 0 <= j < t.len() && i != j implies (#[trigger] t[i]).id != (
    #[trigger] t[j]).id by {
        if i < s.len() && j < s.len() {
            assert(t[i] == s[i] && t[j] == s[j]);
        } else if j == s.len() {
            assert(t[i] == s[i] && t[i].id < pre.next_id && t[j].id == pre.next_id);
        } else {
            assert(i == s.len());
            assert(t[j] == s[j] && t[j].id < pre.next_id && t[i].id == pre.next_id);
        }
    }
    assert forall|i: int| 0 <= i < t.len() implies {
        let b = #[trigger] t[i];
        &&& has_project(post.projects@, b.project_id)
        &&& has_engineer(post.engineers@, b.engineer_id)
        &&& scope_resolves(post.scenarios@, b.scope)
        &&& b.hours_per_week >= 1
        &&& b.id < post.next_id
    } by {
        if i < s.len() {
            assert(t[i] == s[i]);
        } else {
            assert(t[i] == a);
        }
    }
}

/// Flipping one allocation's status to Removed, all other fields kept,
/// preserves the engine invariant (the active set only shrinks).
proof fn lemma_allocation_remove_wf(pre: Engine, post: Engine, k: int)
    requires
        pre.wf(),
        0 <= k < pre.allocations@.len(),
        post.engineers@ == pre.engineers@,
        post.projects@ == pre.projects@,
        post.scenarios@ == pre.scenarios@,
        post.next_id == pre.next_id,
        post.allocations@ == pre.allocations@.update(
            k,
            (Allocation { status: AllocationStatus::Removed, ..pre.allocations@[k] }),
        ),
    ensures
        post.wf(),
{
    let s = pre.allocations@;
    let t = post.allocations@;
    assert forall|i: int, j: int|
        0 <= i < t.len() && 0 <= j < t.len() && i != j && t[i].status is Active
            && t[j].status is Active implies !same_slot(#[trigger] t[i], #[trigger] t[j]) by {
        assert(i != k && j != k);
        assert(t[i] == s[i] && t[j] == s[j]);
    }
    assert forall|i: int, j: int|
        0 <= i < t.len() && 0 <= j < t.len() && i != j implies (#[trigger] t[i]).id != (
    #[trigger] t[j]).id by {
        assert(t[i].id == s[i].id && t[j].id == s[j].id);
    }
    assert forall|i: int| 0 <= i < t.len() implies {
        let b = #[trigger] t[i];
        &&& has_project(post.projects@, b.project_id)
        &&& has_engineer(post.engineers@, b.engineer_id)
        &&& scope_resolves(post.scenarios@, b.scope)
        &&& b.hours_per_week >= 1
        &&& b.id < post.next_id
    } by {
        if i != k {
            assert(t[i] == s[i]);
        } else {
            assert(t[k].project_id == s[k].project_id && t[k].engineer_id == s[k].engineer_id
                && t[k].scope == s[k].scope && t[k].hours_per_week == s[k].hours_per_week
                && t[k].id == s[k].id);
        }
    }
}

} // verus!
