//! Engineer and project registry: validation, lookup, partial update,
//! filtered listing, and archival.

use resource_manager::engine::{Engine, ProjectFilters, ProjectUpdate};
use resource_manager::errors::{EngineError, InvalidField};

#[test]
fn engineer_ktlo_tax_above_capacity_is_rejected() {
    let mut engine = Engine::new();
    assert_eq!(
        engine.create_engineer("Overtaxed".to_string(), 40, 41, false),
        Err(EngineError::Validation(InvalidField::KtloTax))
    );
    assert_eq!(engine.list_engineers().len(), 0);
}

#[test]
fn engineer_ktlo_tax_equal_to_capacity_is_allowed() {
    let mut engine = Engine::new();
    let id = engine
        .create_engineer("Fully taxed".to_string(), 40, 40, false)
        .unwrap();
    let engineer = engine.get_engineer(id).unwrap();
    assert_eq!(engineer.total_capacity, 40);
    assert_eq!(engineer.ktlo_tax, 40);
}

#[test]
fn engineer_lookup_and_update() {
    let mut engine = Engine::new();
    let id = engine
        .create_engineer("Sarah Chen".to_string(), 40, 8, true)
        .unwrap();
    assert!(matches!(engine.get_engineer(9999), Err(EngineError::NotFound)));
    engine
        .update_engineer(id, "Sarah Chen".to_string(), 36, 4, true)
        .unwrap();
    let engineer = engine.get_engineer(id).unwrap();
    assert_eq!(engineer.total_capacity, 36);
    assert_eq!(engineer.ktlo_tax, 4);
    assert!(engineer.is_pm);
    assert_eq!(
        engine.update_engineer(id, "Sarah Chen".to_string(), 10, 20, true),
        Err(EngineError::Validation(InvalidField::KtloTax))
    );
    assert_eq!(
        engine.update_engineer(9999, "Nobody".to_string(), 40, 0, false),
        Err(EngineError::NotFound)
    );
}

#[test]
fn fresh_identities_never_repeat() {
    let mut engine = Engine::new();
    let a = engine.create_engineer("A".to_string(), 40, 0, false).unwrap();
    let b = engine.create_engineer("B".to_string(), 40, 0, false).unwrap();
    let p = engine
        .create_project("P".to_string(), "P1".to_string(), "Draft".to_string(), None)
        .unwrap();
    assert_ne!(a, b);
    assert_ne!(a, p);
    assert_ne!(b, p);
}

#[test]
fn project_lookup_update_and_archive() {
    let mut engine = Engine::new();
    let id = engine
        .create_project(
            "Documentation Revamp".to_string(),
            "P4".to_string(),
            "Active".to_string(),
            Some(7),
        )
        .unwrap();
    assert!(matches!(engine.get_project(9999), Err(EngineError::NotFound)));
    // Partial update: absent fields stay as they were.
    engine
        .update_project(
            id,
            ProjectUpdate {
                name: None,
                priority: Some("P2".to_string()),
                workflow_status: None,
                owner_id: None,
            },
        )
        .unwrap();
    let project = engine.get_project(id).unwrap();
    assert_eq!(project.name, "Documentation Revamp");
    assert_eq!(project.priority, "P2");
    assert_eq!(project.workflow_status, "Active");
    assert_eq!(project.owner_id, Some(7));
    assert!(!project.archived);
    assert_eq!(
        engine.update_project(
            9999,
            ProjectUpdate { name: None, priority: None, workflow_status: None, owner_id: None }
        ),
        Err(EngineError::NotFound)
    );
    // Archival is a soft delete and is idempotent in effect.
    engine.archive_project(id).unwrap();
    assert!(engine.get_project(id).unwrap().archived);
    engine.archive_project(id).unwrap();
    assert_eq!(engine.archive_project(9999), Err(EngineError::NotFound));
}

#[test]
fn project_listing_applies_filters_and_hides_archived() {
    let mut engine = Engine::new();
    let first = engine
        .create_project(
            "Core Router Refresh".to_string(),
            "P1".to_string(),
            "Active".to_string(),
            Some(1),
        )
        .unwrap();
    engine
        .create_project(
            "SD-WAN Migration".to_string(),
            "P2".to_string(),
            "Active".to_string(),
            Some(2),
        )
        .unwrap();
    let archived = engine
        .create_project(
            "Old Initiative".to_string(),
            "P1".to_string(),
            "Active".to_string(),
            Some(1),
        )
        .unwrap();
    engine.archive_project(archived).unwrap();

    let unfiltered = engine.list_projects(&ProjectFilters {
        status: None,
        priority: None,
        owner_id: None,
    });
    assert_eq!(unfiltered.len(), 2);

    let by_priority = engine.list_projects(&ProjectFilters {
        status: None,
        priority: Some("P1".to_string()),
        owner_id: None,
    });
    assert_eq!(by_priority.len(), 1);
    assert_eq!(by_priority[0].id, first);

    let by_owner = engine.list_projects(&ProjectFilters {
        status: Some("Active".to_string()),
        priority: None,
        owner_id: Some(2),
    });
    assert_eq!(by_owner.len(), 1);
    assert_eq!(by_owner[0].name, "SD-WAN Migration");

    let none = engine.list_projects(&ProjectFilters {
        status: Some("Draft".to_string()),
        priority: None,
        owner_id: None,
    });
    assert_eq!(none.len(), 0);
}
