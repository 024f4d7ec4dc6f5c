//! Allocation lifecycle: validation, the uniqueness slot, removal
//! semantics, and listings.

use resource_manager::engine::Engine;
use resource_manager::errors::{EngineError, InvalidField};
use resource_manager::model::{AllocationStatus, Scope};

fn seeded() -> (Engine, u64, u64) {
    let mut engine = Engine::new();
    let engineer_id = engine
        .create_engineer("Mike Davis".to_string(), 40, 0, false)
        .unwrap();
    let project_id = engine
        .create_project(
            "SD-WAN Migration".to_string(),
            "P2".to_string(),
            "Active".to_string(),
            None,
        )
        .unwrap();
    (engine, engineer_id, project_id)
}

fn create(
    engine: &mut Engine,
    project_id: u64,
    engineer_id: u64,
    hours: u32,
    start_week: Option<u32>,
    scope: Scope,
) -> Result<resource_manager::model::Allocation, EngineError> {
    engine.create_allocation(
        project_id,
        engineer_id,
        "Engineering".to_string(),
        hours,
        "Engineering".to_string(),
        start_week,
        None,
        scope,
    )
}

#[test]
fn created_allocation_is_active_with_given_fields() {
    let (mut engine, engineer_id, project_id) = seeded();
    let allocation = create(&mut engine, project_id, engineer_id, 10, Some(3), Scope::Live)
        .unwrap();
    assert_eq!(allocation.project_id, project_id);
    assert_eq!(allocation.engineer_id, engineer_id);
    assert_eq!(allocation.hours_per_week, 10);
    assert_eq!(allocation.start_week, Some(3));
    assert_eq!(allocation.end_week, None);
    assert_eq!(allocation.status, AllocationStatus::Active);
    assert_eq!(allocation.scope, Scope::Live);
}

#[test]
fn zero_hours_is_rejected_before_any_write() {
    let (mut engine, engineer_id, project_id) = seeded();
    assert!(matches!(
        create(&mut engine, project_id, engineer_id, 0, None, Scope::Live),
        Err(EngineError::Validation(InvalidField::Hours))
    ));
    assert_eq!(engine.list_allocations(engineer_id, Scope::Live, true).len(), 0);
}

#[test]
fn unknown_project_is_rejected() {
    let (mut engine, engineer_id, _) = seeded();
    assert!(matches!(
        create(&mut engine, 4242, engineer_id, 5, None, Scope::Live),
        Err(EngineError::Validation(InvalidField::ProjectRef))
    ));
}

#[test]
fn archived_project_is_rejected() {
    let (mut engine, engineer_id, project_id) = seeded();
    engine.archive_project(project_id).unwrap();
    assert!(matches!(
        create(&mut engine, project_id, engineer_id, 5, None, Scope::Live),
        Err(EngineError::Validation(InvalidField::ProjectRef))
    ));
}

#[test]
fn unknown_engineer_is_rejected() {
    let (mut engine, _, project_id) = seeded();
    assert!(matches!(
        create(&mut engine, project_id, 4242, 5, None, Scope::Live),
        Err(EngineError::Validation(InvalidField::EngineerRef))
    ));
}

#[test]
fn unknown_scenario_scope_is_rejected() {
    let (mut engine, engineer_id, project_id) = seeded();
    assert!(matches!(
        create(
            &mut engine,
            project_id,
            engineer_id,
            5,
            None,
            Scope::Scenario(777)
        ),
        Err(EngineError::Validation(InvalidField::ScenarioRef))
    ));
}

#[test]
fn same_slot_in_same_scope_conflicts() {
    let (mut engine, engineer_id, project_id) = seeded();
    create(&mut engine, project_id, engineer_id, 5, Some(1), Scope::Live).unwrap();
    assert!(matches!(
        create(&mut engine, project_id, engineer_id, 9, Some(1), Scope::Live),
        Err(EngineError::Conflict)
    ));
}

#[test]
fn same_slot_in_different_scopes_both_succeed() {
    let (mut engine, engineer_id, project_id) = seeded();
    let (scenario, _) = engine
        .create_scenario("What if".to_string(), None, 1, 0)
        .unwrap();
    create(&mut engine, project_id, engineer_id, 5, Some(1), Scope::Live).unwrap();
    create(
        &mut engine,
        project_id,
        engineer_id,
        5,
        Some(1),
        Scope::Scenario(scenario.id),
    )
    .unwrap();
}

#[test]
fn different_start_weeks_do_not_conflict() {
    let (mut engine, engineer_id, project_id) = seeded();
    create(&mut engine, project_id, engineer_id, 5, Some(1), Scope::Live).unwrap();
    create(&mut engine, project_id, engineer_id, 5, Some(2), Scope::Live).unwrap();
    create(&mut engine, project_id, engineer_id, 5, None, Scope::Live).unwrap();
}

#[test]
fn removal_frees_the_slot_for_a_new_allocation() {
    let (mut engine, engineer_id, project_id) = seeded();
    let first = create(&mut engine, project_id, engineer_id, 5, Some(1), Scope::Live).unwrap();
    engine.remove_allocation(first.id).unwrap();
    // The removed row stays for history, but the slot is free again.
    create(&mut engine, project_id, engineer_id, 8, Some(1), Scope::Live).unwrap();
    let all = engine.list_allocations(engineer_id, Scope::Live, true);
    assert_eq!(all.len(), 2);
    assert_eq!(all[0].status, AllocationStatus::Removed);
    assert_eq!(all[1].status, AllocationStatus::Active);
}

#[test]
fn removing_a_removed_allocation_is_not_found() {
    let (mut engine, engineer_id, project_id) = seeded();
    let allocation = create(&mut engine, project_id, engineer_id, 5, None, Scope::Live).unwrap();
    assert_eq!(engine.remove_allocation(allocation.id), Ok(()));
    assert_eq!(
        engine.remove_allocation(allocation.id),
        Err(EngineError::NotFound)
    );
}

#[test]
fn removing_an_unknown_identity_is_not_found() {
    let (mut engine, _, _) = seeded();
    assert_eq!(engine.remove_allocation(31337), Err(EngineError::NotFound));
}

#[test]
fn listing_excludes_removed_rows_unless_asked() {
    let (mut engine, engineer_id, project_id) = seeded();
    let first = create(&mut engine, project_id, engineer_id, 5, Some(1), Scope::Live).unwrap();
    let second = create(&mut engine, project_id, engineer_id, 6, Some(2), Scope::Live).unwrap();
    engine.remove_allocation(first.id).unwrap();
    let active_only = engine.list_allocations(engineer_id, Scope::Live, false);
    assert_eq!(active_only.len(), 1);
    assert_eq!(active_only[0].id, second.id);
    let with_removed = engine.list_allocations(engineer_id, Scope::Live, true);
    assert_eq!(with_removed.len(), 2);
    assert_eq!(with_removed[0].id, first.id);
    assert_eq!(with_removed[1].id, second.id);
}

#[test]
fn listing_is_scoped_to_the_engineer_and_scope() {
    let (mut engine, engineer_id, project_id) = seeded();
    let other_engineer = engine
        .create_engineer("J. Kim".to_string(), 40, 4, false)
        .unwrap();
    create(&mut engine, project_id, engineer_id, 5, Some(1), Scope::Live).unwrap();
    create(&mut engine, project_id, other_engineer, 6, Some(1), Scope::Live).unwrap();
    assert_eq!(engine.list_allocations(engineer_id, Scope::Live, true).len(), 1);
    assert_eq!(
        engine
            .list_allocations(engineer_id, Scope::Scenario(0), true)
            .len(),
        0
    );
}

#[test]
fn workload_view_joins_project_names() {
    let (mut engine, engineer_id, project_id) = seeded();
    let second_project = engine
        .create_project(
            "Wireless Upgrade".to_string(),
            "P3".to_string(),
            "Draft".to_string(),
            None,
        )
        .unwrap();
    create(&mut engine, project_id, engineer_id, 5, None, Scope::Live).unwrap();
    let removed = create(&mut engine, second_project, engineer_id, 6, Some(4), Scope::Live)
        .unwrap();
    let kept = create(&mut engine, second_project, engineer_id, 7, Some(5), Scope::Live)
        .unwrap();
    engine.remove_allocation(removed.id).unwrap();
    let workload = engine.engineer_workload(engineer_id, Scope::Live);
    assert_eq!(workload.len(), 2);
    assert_eq!(workload[0].project_name, "SD-WAN Migration");
    assert_eq!(workload[0].role_required, "Engineering");
    assert_eq!(workload[0].hours_per_week, 5);
    assert_eq!(workload[1].id, kept.id);
    assert_eq!(workload[1].project_name, "Wireless Upgrade");
    assert_eq!(workload[1].hours_per_week, 7);
}

#[test]
fn error_descriptions_are_stable() {
    assert_eq!(
        EngineError::Validation(InvalidField::Hours).describe(),
        "validation error"
    );
    assert_eq!(
        EngineError::Conflict.describe(),
        "conflict: allocation slot already taken"
    );
    assert_eq!(EngineError::NotFound.describe(), "not found");
    assert_eq!(EngineError::Storage.describe(), "storage failure");
}
