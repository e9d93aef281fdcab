use hirsel::specflow::{
    CreateRowRequest, Placement, PlacementUpdate, RowEvalStatus, SpecBoard, SpecFlowError, SpecStatus, TaskStatus,
    UpdateRowRequest,
};

fn at(x: f64, y: f64) -> Placement {
    Placement { x: x.to_bits(), y: y.to_bits(), width: 300.0f64.to_bits() }
}

fn keep() -> PlacementUpdate {
    PlacementUpdate { x: None, y: None, width: None }
}

fn board_with_island(id: &str) -> SpecBoard {
    let mut b = SpecBoard::new(1);
    b.create_island(id.to_string(), "Test".to_string(), at(0.0, 0.0), "t0".to_string()).unwrap();
    b
}

fn add_row(b: &mut SpecBoard, island: &str, id: &str) {
    b.create_row(
        &CreateRowRequest { island_id: island.to_string(), position: None },
        id.to_string(),
        "t1".to_string(),
    )
    .unwrap();
}

#[test]
fn test_row_crud() {
    let mut state = board_with_island("isl");

    // Create rows
    let row1 = state
        .create_row(
            &CreateRowRequest { island_id: "isl".to_string(), position: None },
            "r1".to_string(),
            "t1".to_string(),
        )
        .unwrap();
    let row2 = state
        .create_row(
            &CreateRowRequest { island_id: "isl".to_string(), position: None },
            "r2".to_string(),
            "t2".to_string(),
        )
        .unwrap();

    assert_eq!(row1.position, 0);
    assert_eq!(row2.position, 1);

    // Update row
    let updated = state
        .update_row(
            &row1.id,
            &UpdateRowRequest {
                spec_content: Some("# Login Flow".to_string()),
                task_title: Some("Implement login".to_string()),
                ..Default::default()
            },
            "t3".to_string(),
        )
        .unwrap();
    assert_eq!(updated.spec_content, Some("# Login Flow".to_string()));
    assert_eq!(updated.task_title, Some("Implement login".to_string()));

    // Reorder
    state
        .reorder_rows("isl", &[row2.id.clone(), row1.id.clone()], "t4".to_string())
        .unwrap();
    let reordered = state.get_row(&row2.id).unwrap();
    assert_eq!(reordered.position, 0);

    // Delete
    state.delete_row(&row1.id).unwrap();
    let island = state.get_island("isl").unwrap();
    assert_eq!(island.rows.len(), 1);
}

#[test]
fn test_wires() {
    let mut state = SpecBoard::new(1);
    let island1 = state.create_island("a".to_string(), "A".to_string(), at(0.0, 0.0), "t".to_string()).unwrap();
    let island2 = state.create_island("b".to_string(), "B".to_string(), at(0.0, 0.0), "t".to_string()).unwrap();

    let wire = state
        .create_wire(&island1.id, &island2.id, "w1".to_string(), "t".to_string())
        .unwrap();
    assert_eq!(wire.from_island_id, island1.id);
    assert_eq!(wire.to_island_id, island2.id);

    let wires = state.list_wires().unwrap();
    assert_eq!(wires.len(), 1);

    state.delete_wire(&wire.id).unwrap();
    assert!(state.list_wires().unwrap().is_empty());
}

#[test]
fn status_names_round_trip() {
    for s in [TaskStatus::Todo, TaskStatus::Doing, TaskStatus::Done, TaskStatus::Blocked, TaskStatus::Deleted] {
        assert_eq!(TaskStatus::from_str(s.as_str()), s);
    }
    assert_eq!(TaskStatus::from_str("bogus"), TaskStatus::Todo);
    assert_eq!(SpecStatus::from_str("approved"), SpecStatus::Approved);
    assert_eq!(SpecStatus::from_str("x"), SpecStatus::Draft);
    assert_eq!(RowEvalStatus::from_str("pass"), RowEvalStatus::Pass);
    assert_eq!(RowEvalStatus::from_str("fail"), RowEvalStatus::Fail);
    assert_eq!(RowEvalStatus::from_str(""), RowEvalStatus::Pending);
    assert_eq!(RowEvalStatus::Fail.as_str(), "fail");
}

#[test]
fn new_rows_have_defaults_and_requested_positions() {
    let mut b = board_with_island("i");
    let r = b
        .create_row(&CreateRowRequest { island_id: "i".to_string(), position: Some(7) }, "r".to_string(), "now".to_string())
        .unwrap();
    assert_eq!(r.position, 7);
    assert_eq!(r.spec_status, SpecStatus::Draft);
    assert_eq!(r.task_status, TaskStatus::Todo);
    assert_eq!(r.eval_status, RowEvalStatus::Pending);
    assert!(!r.dispatched);
    assert!(r.task_blocked_by.is_empty());
    assert_eq!(r.created_at, "now");
    let next = b
        .create_row(&CreateRowRequest { island_id: "i".to_string(), position: None }, "s".to_string(), "now".to_string())
        .unwrap();
    assert_eq!(next.position, 8);
}

#[test]
fn row_errors() {
    let mut b = board_with_island("i");
    match b.create_row(&CreateRowRequest { island_id: "zz".to_string(), position: None }, "r".to_string(), "t".to_string()) {
        Err(SpecFlowError::IslandNotFound(id)) => assert_eq!(id, "zz"),
        other => panic!("unexpected {:?}", other),
    }
    add_row(&mut b, "i", "r");
    match b.create_row(&CreateRowRequest { island_id: "i".to_string(), position: None }, "r".to_string(), "t".to_string()) {
        Err(SpecFlowError::Database(m)) => assert_eq!(m, "UNIQUE constraint failed: board_rows.id"),
        other => panic!("unexpected {:?}", other),
    }
    assert!(matches!(b.get_row("nope"), Err(SpecFlowError::RowNotFound(_))));
    assert!(matches!(b.delete_row("nope"), Err(SpecFlowError::RowNotFound(_))));
    assert!(matches!(
        b.update_row("nope", &UpdateRowRequest::default(), "t".to_string()),
        Err(SpecFlowError::RowNotFound(_))
    ));
    match b.create_island("i".to_string(), "again".to_string(), at(0.0, 0.0), "t".to_string()) {
        Err(SpecFlowError::Database(m)) => assert_eq!(m, "UNIQUE constraint failed: board_islands.id"),
        other => panic!("unexpected {:?}", other),
    }
    assert!(matches!(b.get_island("nope"), Err(SpecFlowError::IslandNotFound(_))));
}

#[test]
fn island_rows_come_sorted_by_position() {
    let mut b = board_with_island("i");
    for (id, pos) in [("a", 5), ("b", 1), ("c", 3)] {
        b.create_row(&CreateRowRequest { island_id: "i".to_string(), position: Some(pos) }, id.to_string(), "t".to_string())
            .unwrap();
    }
    let isl = b.get_island("i").unwrap();
    let ids: Vec<&str> = isl.rows.iter().map(|r| r.id.as_str()).collect();
    assert_eq!(ids, vec!["b", "c", "a"]);
    assert_eq!(b.list_islands().len(), 1);
}

#[test]
fn computed_status_follows_dispatch() {
    let mut b = board_with_island("i");
    add_row(&mut b, "i", "r1");
    add_row(&mut b, "i", "r2");
    assert_eq!(b.get_island("i").unwrap().computed_status(), "draft");
    b.set_row_dispatched("r1", "run-1", "t".to_string()).unwrap();
    assert_eq!(b.get_island("i").unwrap().computed_status(), "partial");
    b.set_row_dispatched("r2", "run-1", "t".to_string()).unwrap();
    assert_eq!(b.get_island("i").unwrap().computed_status(), "dispatched");
    b.update_row_task_status("r1", TaskStatus::Done, Some("w1".to_string()), "t".to_string()).unwrap();
    b.update_row_task_status("r2", TaskStatus::Done, None, "t".to_string()).unwrap();
    assert_eq!(b.get_island("i").unwrap().computed_status(), "done");
    assert_eq!(b.get_row("r1").unwrap().task_worker, Some("w1".to_string()));
    assert_eq!(b.get_row("r1").unwrap().run_name, Some("run-1".to_string()));
    assert_eq!(
        b.check_already_dispatched(&["r2".to_string(), "zz".to_string()]).unwrap(),
        vec!["r2".to_string()]
    );
}

#[test]
fn rows_with_deps_follow_dependencies() {
    let mut b = board_with_island("i");
    for id in ["a", "b", "c", "d"] {
        add_row(&mut b, "i", id);
    }
    let deps = |v: &[&str]| UpdateRowRequest {
        task_blocked_by: Some(v.iter().map(|s| s.to_string()).collect()),
        ..Default::default()
    };
    b.update_row("a", &deps(&["b", "missing"]), "t".to_string()).unwrap();
    b.update_row("b", &deps(&["c", "a"]), "t".to_string()).unwrap();
    let got = b.get_rows_with_deps(&["a".to_string()]).unwrap();
    let mut ids: Vec<String> = got.iter().map(|r| r.id.clone()).collect();
    ids.sort();
    assert_eq!(ids, vec!["a", "b", "c"]);
    assert!(b.get_rows_with_deps(&["nope".to_string()]).unwrap().is_empty());
}

#[test]
fn deleting_an_island_removes_its_rows_and_wires() {
    let mut b = board_with_island("i");
    b.create_island("j".to_string(), "J".to_string(), at(0.0, 0.0), "t".to_string()).unwrap();
    add_row(&mut b, "i", "r1");
    add_row(&mut b, "j", "r2");
    b.create_wire("i", "j", "w".to_string(), "t".to_string()).unwrap();
    b.delete_island("i").unwrap();
    assert!(b.get_row("r1").is_err());
    assert!(b.get_row("r2").is_ok());
    assert!(b.list_wires().unwrap().is_empty());
    assert!(matches!(b.delete_island("i"), Err(SpecFlowError::IslandNotFound(_))));
}

#[test]
fn wire_refusals() {
    let mut b = board_with_island("i");
    b.create_island("j".to_string(), "J".to_string(), at(0.0, 0.0), "t".to_string()).unwrap();
    b.create_wire("i", "j", "w".to_string(), "t".to_string()).unwrap();
    match b.create_wire("j", "i", "w".to_string(), "t".to_string()) {
        Err(SpecFlowError::Database(m)) => assert_eq!(m, "UNIQUE constraint failed: board_wires.id"),
        other => panic!("unexpected {:?}", other),
    }
    match b.create_wire("i", "j", "w2".to_string(), "t".to_string()) {
        Err(SpecFlowError::Database(m)) => assert_eq!(
            m,
            "UNIQUE constraint failed: board_wires.from_island_id, board_wires.to_island_id"
        ),
        other => panic!("unexpected {:?}", other),
    }
    match b.create_wire("i", "zz", "w3".to_string(), "t".to_string()) {
        Err(SpecFlowError::Database(m)) => assert_eq!(m, "FOREIGN KEY constraint failed"),
        other => panic!("unexpected {:?}", other),
    }
    assert!(matches!(b.get_wire("zz"), Err(SpecFlowError::WireNotFound(_))));
    assert!(matches!(b.delete_wire("zz"), Err(SpecFlowError::WireNotFound(_))));
    assert_eq!(b.get_wire("w").unwrap().to_island_id, "j");
}

#[test]
fn island_updates_replace_given_fields() {
    let mut b = board_with_island("i");
    let isl = b
        .update_island("i", Some("Authentication".to_string()), keep(), Some(true), None, "t9".to_string())
        .unwrap();
    assert_eq!(isl.name, "Authentication");
    assert!(isl.collapsed);
    assert!(isl.summary.is_none());
    assert_eq!(isl.updated_at, "t9");
    assert_eq!(isl.created_at, "t0");
    assert!(matches!(
        b.update_island("zz", None, keep(), None, None, "t".to_string()),
        Err(SpecFlowError::IslandNotFound(_))
    ));
}

#[test]
fn appended_row_follows_negative_positions() {
    let mut b = board_with_island("isl");
    b.create_row(&CreateRowRequest { island_id: "isl".to_string(), position: Some(-5) }, "a".to_string(), "t1".to_string())
        .unwrap();
    b.create_row(&CreateRowRequest { island_id: "isl".to_string(), position: Some(-9) }, "b".to_string(), "t1".to_string())
        .unwrap();
    let c = b
        .create_row(&CreateRowRequest { island_id: "isl".to_string(), position: None }, "c".to_string(), "t2".to_string())
        .unwrap();
    assert_eq!(c.position, -4);
    assert_eq!(b.last_position("isl"), -4);
    assert_eq!(b.last_position("none"), -1);
}

#[test]
fn test_island_crud() {
    let mut state = SpecBoard::new(1);

    // Create
    let island = state
        .create_island(
            "isl-auth".to_string(),
            "Auth".to_string(),
            Placement { x: 100.0f64.to_bits(), y: 200.0f64.to_bits(), width: 400.0f64.to_bits() },
            "t0".to_string(),
        )
        .unwrap();
    assert_eq!(island.name, "Auth");
    assert_eq!(f64::from_bits(island.placement.x), 100.0);

    // Update
    let updated = state
        .update_island(
            &island.id,
            Some("Authentication".to_string()),
            PlacementUpdate { x: Some(150.0f64.to_bits()), ..keep() },
            None,
            None,
            "t1".to_string(),
        )
        .unwrap();
    assert_eq!(updated.name, "Authentication");
    assert_eq!(f64::from_bits(updated.placement.x), 150.0);
    assert_eq!(f64::from_bits(updated.placement.y), 200.0);
    assert_eq!(f64::from_bits(updated.placement.width), 400.0);

    // List
    let islands = state.list_islands();
    assert_eq!(islands.len(), 1);

    // Delete
    state.delete_island(&island.id).unwrap();
    assert!(state.get_island(&island.id).is_err());
}

#[test]
fn islands_are_listed_by_place() {
    let mut b = SpecBoard::new(1);
    b.create_island("low".to_string(), "L".to_string(), at(0.0, 50.0), "t".to_string()).unwrap();
    b.create_island("right".to_string(), "R".to_string(), at(10.0, -3.5), "t".to_string()).unwrap();
    b.create_island("left".to_string(), "F".to_string(), at(-2.0, -3.5), "t".to_string()).unwrap();
    b.create_island("top".to_string(), "T".to_string(), at(7.0, -100.0), "t".to_string()).unwrap();
    let ids: Vec<String> = b.list_islands().iter().map(|i| i.id.clone()).collect();
    assert_eq!(ids, vec!["top", "left", "right", "low"]);
}
