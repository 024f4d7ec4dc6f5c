//! Scenario branching: faithful whole-snapshot cloning, isolation between
//! scopes, and the end-to-end capacity flow.

use resource_manager::engine::Engine;
use resource_manager::model::{AllocationStatus, Scope};

fn seeded() -> (Engine, u64, u64) {
    let mut engine = Engine::new();
    let engineer_id = engine
        .create_engineer("R. Patel".to_string(), 40, 8, false)
        .unwrap();
    let project_id = engine
        .create_project(
            "Automation Scripting".to_string(),
            "P2".to_string(),
            "Approved".to_string(),
            None,
        )
        .unwrap();
    (engine, engineer_id, project_id)
}

fn create_live(
    engine: &mut Engine,
    project_id: u64,
    engineer_id: u64,
    hours: u32,
    start_week: Option<u32>,
) -> resource_manager::model::Allocation {
    engine
        .create_allocation(
            project_id,
            engineer_id,
            "Engineering".to_string(),
            hours,
            "Engineering".to_string(),
            start_week,
            None,
            Scope::Live,
        )
        .unwrap()
}

#[test]
fn branching_an_empty_live_set_yields_zero_clones() {
    let (mut engine, _, _) = seeded();
    let (scenario, cloned) = engine
        .create_scenario("Empty branch".to_string(), None, 1, 42)
        .unwrap();
    assert_eq!(cloned, 0);
    assert_eq!(scenario.name, "Empty branch");
    assert_eq!(scenario.created_at_millis, 42);
    assert_eq!(engine.list_scenarios().len(), 1);
}

#[test]
fn branching_clones_every_live_row_with_status_kept() {
    let (mut engine, engineer_id, project_id) = seeded();
    let active = create_live(&mut engine, project_id, engineer_id, 10, Some(1));
    let removed = create_live(&mut engine, project_id, engineer_id, 6, Some(2));
    engine.remove_allocation(removed.id).unwrap();
    let (scenario, cloned) = engine
        .create_scenario(
            "Snapshot".to_string(),
            Some("with history".to_string()),
            1,
            0,
        )
        .unwrap();
    // Active and Removed rows are both cloned, each status faithfully.
    assert_eq!(cloned, 2);
    let clones = engine.list_allocations(engineer_id, Scope::Scenario(scenario.id), true);
    assert_eq!(clones.len(), 2);
    assert_eq!(clones[0].status, AllocationStatus::Active);
    assert_eq!(clones[0].hours_per_week, 10);
    assert_eq!(clones[0].start_week, Some(1));
    assert_eq!(clones[1].status, AllocationStatus::Removed);
    assert_eq!(clones[1].hours_per_week, 6);
    assert_eq!(clones[1].start_week, Some(2));
    // Fresh identities, distinct from the sources.
    assert_ne!(clones[0].id, active.id);
    assert_ne!(clones[1].id, removed.id);
    assert_ne!(clones[0].id, clones[1].id);
    // The live rows themselves are untouched.
    let live = engine.list_allocations(engineer_id, Scope::Live, true);
    assert_eq!(live.len(), 2);
    assert_eq!(live[0].id, active.id);
    assert_eq!(live[1].id, removed.id);
}

#[test]
fn branching_does_not_clone_other_scenarios() {
    let (mut engine, engineer_id, project_id) = seeded();
    create_live(&mut engine, project_id, engineer_id, 10, Some(1));
    let (first, first_count) = engine
        .create_scenario("First".to_string(), None, 1, 0)
        .unwrap();
    assert_eq!(first_count, 1);
    // A second branch still sees one live row, not the first branch's clone.
    let (second, second_count) = engine
        .create_scenario("Second".to_string(), None, 1, 0)
        .unwrap();
    assert_eq!(second_count, 1);
    assert_ne!(first.id, second.id);
    assert_eq!(
        engine
            .list_allocations(engineer_id, Scope::Scenario(second.id), true)
            .len(),
        1
    );
}

#[test]
fn scenario_edits_never_affect_live_and_vice_versa() {
    let (mut engine, engineer_id, project_id) = seeded();
    create_live(&mut engine, project_id, engineer_id, 10, None);
    let (scenario, _) = engine
        .create_scenario("Divergent".to_string(), None, 1, 0)
        .unwrap();
    let scope = Scope::Scenario(scenario.id);
    // Remove the clone inside the scenario; Live keeps its row.
    let clone_id = engine.list_allocations(engineer_id, scope, false)[0].id;
    engine.remove_allocation(clone_id).unwrap();
    assert_eq!(
        engine.compute_available_hours(engineer_id, scope, 0),
        Ok(32)
    );
    assert_eq!(
        engine.compute_available_hours(engineer_id, Scope::Live, 0),
        Ok(22)
    );
    // And a new live allocation does not appear in the scenario.
    create_live(&mut engine, project_id, engineer_id, 4, Some(9));
    assert_eq!(engine.list_allocations(engineer_id, scope, true).len(), 1);
}

#[test]
fn end_to_end_capacity_across_a_branch() {
    // total_capacity=40, ktlo_tax=8: 32 available for any week.
    let (mut engine, engineer_id, project_id) = seeded();
    assert_eq!(
        engine.compute_available_hours(engineer_id, Scope::Live, 7),
        Ok(32)
    );
    // One open-ended 10-hour allocation: 22 for every week.
    create_live(&mut engine, project_id, engineer_id, 10, None);
    for week in [0, 7, 1000] {
        assert_eq!(
            engine.compute_available_hours(engineer_id, Scope::Live, week),
            Ok(22)
        );
    }
    // Branch, then add 5 more hours only inside the scenario.
    let (scenario, cloned) = engine
        .create_scenario("Planning".to_string(), None, 1, 0)
        .unwrap();
    assert_eq!(cloned, 1);
    let scope = Scope::Scenario(scenario.id);
    engine
        .create_allocation(
            project_id,
            engineer_id,
            "Engineering".to_string(),
            5,
            "Engineering".to_string(),
            Some(1),
            None,
            scope,
        )
        .unwrap();
    assert_eq!(
        engine.compute_available_hours(engineer_id, Scope::Live, 7),
        Ok(22)
    );
    assert_eq!(engine.compute_available_hours(engineer_id, scope, 7), Ok(17));
}

#[test]
fn scenarios_are_listed_in_creation_order_with_metadata() {
    let (mut engine, _, _) = seeded();
    engine
        .create_scenario("A".to_string(), Some("first".to_string()), 5, 100)
        .unwrap();
    engine.create_scenario("B".to_string(), None, 6, 200).unwrap();
    let scenarios = engine.list_scenarios();
    assert_eq!(scenarios.len(), 2);
    assert_eq!(scenarios[0].name, "A");
    assert_eq!(scenarios[0].description, Some("first".to_string()));
    assert_eq!(scenarios[0].created_by, 5);
    assert_eq!(scenarios[0].created_at_millis, 100);
    assert_eq!(scenarios[1].name, "B");
    assert_eq!(scenarios[1].created_at_millis, 200);
}

#[test]
fn branching_with_the_wall_clock_clones_the_same_way() {
    let (mut engine, engineer_id, project_id) = seeded();
    create_live(&mut engine, project_id, engineer_id, 10, Some(1));
    let (scenario, cloned) = engine
        .create_scenario_now("Clocked".to_string(), None, 1)
        .unwrap();
    assert_eq!(cloned, 1);
    assert_eq!(scenario.name, "Clocked");
    assert_eq!(
        engine
            .list_allocations(engineer_id, Scope::Scenario(scenario.id), true)
            .len(),
        1
    );
}
