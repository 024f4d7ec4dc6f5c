//! Capacity model: available hours net of overhead, window coverage, and
//! monotonicity under the allocation lifecycle.

use resource_manager::engine::Engine;
use resource_manager::errors::EngineError;
use resource_manager::model::Scope;

fn engine_with_engineer_and_project() -> (Engine, u64, u64) {
    let mut engine = Engine::new();
    let engineer_id = engine
        .create_engineer("Sarah Chen".to_string(), 40, 8, true)
        .unwrap();
    let project_id = engine
        .create_project(
            "Core Router Refresh".to_string(),
            "P1".to_string(),
            "Active".to_string(),
            None,
        )
        .unwrap();
    (engine, engineer_id, project_id)
}

#[test]
fn capacity_without_allocations_is_net_of_ktlo_tax() {
    let (engine, engineer_id, _) = engine_with_engineer_and_project();
    // total_capacity=40, ktlo_tax=8, no allocations: 32 for any week.
    assert_eq!(
        engine.compute_available_hours(engineer_id, Scope::Live, 0),
        Ok(32)
    );
    assert_eq!(
        engine.compute_available_hours(engineer_id, Scope::Live, 17),
        Ok(32)
    );
    assert_eq!(
        engine.compute_available_hours(engineer_id, Scope::Live, u32::MAX),
        Ok(32)
    );
}

#[test]
fn capacity_for_unknown_engineer_is_not_found() {
    let (engine, _, _) = engine_with_engineer_and_project();
    assert_eq!(
        engine.compute_available_hours(9999, Scope::Live, 0),
        Err(EngineError::NotFound)
    );
}

#[test]
fn open_ended_allocation_counts_for_every_week() {
    let (mut engine, engineer_id, project_id) = engine_with_engineer_and_project();
    engine
        .create_allocation(
            project_id,
            engineer_id,
            "Engineering".to_string(),
            10,
            "Engineering".to_string(),
            None,
            None,
            Scope::Live,
        )
        .unwrap();
    for week in [0, 1, 26, 52, u32::MAX] {
        assert_eq!(
            engine.compute_available_hours(engineer_id, Scope::Live, week),
            Ok(22)
        );
    }
}

#[test]
fn window_bounds_are_inclusive() {
    let (mut engine, engineer_id, project_id) = engine_with_engineer_and_project();
    engine
        .create_allocation(
            project_id,
            engineer_id,
            "Engineering".to_string(),
            12,
            "Engineering".to_string(),
            Some(10),
            Some(20),
            Scope::Live,
        )
        .unwrap();
    assert_eq!(
        engine.compute_available_hours(engineer_id, Scope::Live, 9),
        Ok(32)
    );
    assert_eq!(
        engine.compute_available_hours(engineer_id, Scope::Live, 10),
        Ok(20)
    );
    assert_eq!(
        engine.compute_available_hours(engineer_id, Scope::Live, 20),
        Ok(20)
    );
    assert_eq!(
        engine.compute_available_hours(engineer_id, Scope::Live, 21),
        Ok(32)
    );
}

#[test]
fn over_allocation_goes_negative_without_clamping() {
    let (mut engine, engineer_id, project_id) = engine_with_engineer_and_project();
    engine
        .create_allocation(
            project_id,
            engineer_id,
            "Engineering".to_string(),
            50,
            "Engineering".to_string(),
            None,
            None,
            Scope::Live,
        )
        .unwrap();
    assert_eq!(
        engine.compute_available_hours(engineer_id, Scope::Live, 3),
        Ok(-18)
    );
}

#[test]
fn available_hours_falls_on_create_and_rises_back_on_remove() {
    let (mut engine, engineer_id, project_id) = engine_with_engineer_and_project();
    let before = engine
        .compute_available_hours(engineer_id, Scope::Live, 5)
        .unwrap();
    let allocation = engine
        .create_allocation(
            project_id,
            engineer_id,
            "Engineering".to_string(),
            7,
            "Engineering".to_string(),
            None,
            None,
            Scope::Live,
        )
        .unwrap();
    let during = engine
        .compute_available_hours(engineer_id, Scope::Live, 5)
        .unwrap();
    assert_eq!(during, before - 7);
    engine.remove_allocation(allocation.id).unwrap();
    let after = engine
        .compute_available_hours(engineer_id, Scope::Live, 5)
        .unwrap();
    assert_eq!(after, before);
}

#[test]
fn reads_do_not_change_available_hours() {
    let (mut engine, engineer_id, project_id) = engine_with_engineer_and_project();
    engine
        .create_allocation(
            project_id,
            engineer_id,
            "Engineering".to_string(),
            10,
            "Engineering".to_string(),
            None,
            None,
            Scope::Live,
        )
        .unwrap();
    let first = engine.compute_available_hours(engineer_id, Scope::Live, 2);
    let _ = engine.list_allocations(engineer_id, Scope::Live, true);
    let _ = engine.engineer_workload(engineer_id, Scope::Live);
    let _ = engine.list_scenarios();
    let second = engine.compute_available_hours(engineer_id, Scope::Live, 2);
    assert_eq!(first, second);
}
