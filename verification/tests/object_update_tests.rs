use eda_cli_core::object_updates::{
    ManufacturingPlanRecord, ManufacturingPlanUpdate, OutputJobRecord, OutputJobUpdate, PanelBoardInstance,
    PanelProjectionRecord, PanelProjectionUpdate, UpdateError, apply_manufacturing_plan_update,
    check_manufacturing_plan_update, new_manufacturing_plan, new_panel_projection, update_output_job,
    update_panel_projection,
};

fn job() -> OutputJobRecord {
    OutputJobRecord {
        id: 1,
        name: "fab".to_string(),
        output_dir: Some("out".to_string()),
        manufacturing_plan: Some(5),
        variant: Some(6),
        object_revision: 3,
    }
}

fn no_job_update() -> OutputJobUpdate {
    OutputJobUpdate {
        name: None,
        output_dir: None,
        manufacturing_plan: None,
        variant: None,
        clear_manufacturing_plan: false,
        clear_variant: false,
        clear_output_dir: false,
    }
}

#[test]
fn output_job_update_needs_a_field() {
    let mut j = job();
    assert_eq!(update_output_job(&mut j, no_job_update()), Err(UpdateError::NoFields));
    assert_eq!(j, job());
}

#[test]
fn output_job_update_sets_and_clears() {
    let mut j = job();
    let u = OutputJobUpdate {
        name: Some("release".to_string()),
        output_dir: Some("dist".to_string()),
        manufacturing_plan: Some(9),
        variant: Some(8),
        clear_manufacturing_plan: true,
        clear_variant: false,
        clear_output_dir: true,
    };
    assert_eq!(update_output_job(&mut j, u), Ok(()));
    assert_eq!(j.name, "release");
    assert_eq!(j.output_dir, None);
    assert_eq!(j.manufacturing_plan, None);
    assert_eq!(j.variant, Some(8));
    assert_eq!(j.object_revision, 4);
    assert_eq!(j.id, 1);
    let mut k = job();
    let only_clear = OutputJobUpdate { clear_variant: true, ..no_job_update() };
    assert_eq!(update_output_job(&mut k, only_clear), Ok(()));
    assert_eq!((k.name.as_str(), k.output_dir.as_deref(), k.variant, k.object_revision), ("fab", Some("out"), None, 4));
}

fn plan() -> ManufacturingPlanRecord {
    ManufacturingPlanRecord { id: 2, name: "p".to_string(), prefix: "board".to_string(), variant: Some(4), board_or_panel: 100, object_revision: 0 }
}

fn no_plan_update() -> ManufacturingPlanUpdate {
    ManufacturingPlanUpdate { name: None, prefix: None, variant: None, clear_variant: false, panel_projection: None, clear_panel_projection: false }
}

#[test]
fn manufacturing_plan_request_checks() {
    assert_eq!(check_manufacturing_plan_update(&no_plan_update()), Err(UpdateError::NoFields));
    assert_eq!(
        check_manufacturing_plan_update(&ManufacturingPlanUpdate { variant: Some(1), clear_variant: true, ..no_plan_update() }),
        Err(UpdateError::VariantConflict)
    );
    assert_eq!(
        check_manufacturing_plan_update(&ManufacturingPlanUpdate { panel_projection: Some(1), clear_panel_projection: true, ..no_plan_update() }),
        Err(UpdateError::PanelProjectionConflict)
    );
    assert_eq!(check_manufacturing_plan_update(&ManufacturingPlanUpdate { prefix: Some("x".to_string()), ..no_plan_update() }), Ok(()));
}

#[test]
fn manufacturing_plan_update_applies() {
    let mut p = plan();
    let u = ManufacturingPlanUpdate { panel_projection: Some(77), ..no_plan_update() };
    assert_eq!(apply_manufacturing_plan_update(&mut p, u, 100, &[55]), Err(UpdateError::PanelProjectionNotFound));
    assert_eq!(p, plan());
    let u = ManufacturingPlanUpdate { panel_projection: Some(55), prefix: Some("panel".to_string()), clear_variant: true, ..no_plan_update() };
    assert_eq!(apply_manufacturing_plan_update(&mut p, u, 100, &[55]), Ok(()));
    assert_eq!((p.board_or_panel, p.prefix.as_str(), p.variant, p.object_revision), (55, "panel", None, 1));
    let u = ManufacturingPlanUpdate { clear_panel_projection: true, ..no_plan_update() };
    assert_eq!(apply_manufacturing_plan_update(&mut p, u, 100, &[]), Ok(()));
    assert_eq!((p.board_or_panel, p.object_revision), (100, 2));
}

#[test]
fn panel_projection_update_edits_the_first_instance() {
    let none = PanelProjectionUpdate { name: None, board: None, x_nm: None, y_nm: None, rotation_deg: None };
    let mut empty = PanelProjectionRecord { id: 3, name: "panel".to_string(), board_instances: vec![], object_revision: 7 };
    assert_eq!(update_panel_projection(&mut empty, none.clone(), 100), Err(UpdateError::NoFields));
    assert!(empty.board_instances.is_empty());
    assert_eq!(update_panel_projection(&mut empty, PanelProjectionUpdate { x_nm: Some(5), ..none.clone() }, 100), Ok(()));
    assert_eq!(empty.board_instances, vec![PanelBoardInstance { board: 100, x_nm: 5, y_nm: 0, rotation_deg: 0 }]);
    assert_eq!(empty.object_revision, 8);
    let second = PanelBoardInstance { board: 101, x_nm: 1, y_nm: 1, rotation_deg: 90 };
    let mut two = PanelProjectionRecord {
        id: 4,
        name: "two".to_string(),
        board_instances: vec![PanelBoardInstance { board: 100, x_nm: 0, y_nm: 0, rotation_deg: 0 }, second],
        object_revision: 0,
    };
    let u = PanelProjectionUpdate { name: Some("renamed".to_string()), board: Some(200), rotation_deg: Some(180), ..none };
    assert_eq!(update_panel_projection(&mut two, u, 100), Ok(()));
    assert_eq!(two.name, "renamed");
    assert_eq!(two.board_instances, vec![PanelBoardInstance { board: 200, x_nm: 0, y_nm: 0, rotation_deg: 180 }, second]);
}

#[test]
fn new_records_take_defaults() {
    let p = new_manufacturing_plan(10, "rev-a", None, Some(3), None, 100);
    assert_eq!(p, ManufacturingPlanRecord { id: 10, name: "Manufacturing plan rev-a".to_string(), prefix: "rev-a".to_string(), variant: Some(3), board_or_panel: 100, object_revision: 0 });
    let q = new_manufacturing_plan(11, "x", Some("Mine"), None, Some(55), 100);
    assert_eq!((q.name.as_str(), q.board_or_panel), ("Mine", 55));
    let panel = new_panel_projection(12, "main", None, None, 100, 5, 6, 90);
    assert_eq!(panel.name, "Panel projection main");
    assert_eq!(panel.board_instances, vec![PanelBoardInstance { board: 100, x_nm: 5, y_nm: 6, rotation_deg: 90 }]);
    assert_eq!(panel.object_revision, 0);
    let other = new_panel_projection(13, "k", Some("Named"), Some(200), 100, 0, 0, 0);
    assert_eq!((other.name.as_str(), other.board_instances[0].board), ("Named", 200));
}

#[test]
fn manufacturing_plan_update_refuses_bad_request_unchanged() {
    let mut p = plan();
    assert_eq!(apply_manufacturing_plan_update(&mut p, no_plan_update(), 100, &[55]), Err(UpdateError::NoFields));
    assert_eq!(p, plan());
    let u = ManufacturingPlanUpdate { variant: Some(3), clear_variant: true, ..no_plan_update() };
    assert_eq!(apply_manufacturing_plan_update(&mut p, u, 100, &[55]), Err(UpdateError::VariantConflict));
    assert_eq!(p, plan());
}
