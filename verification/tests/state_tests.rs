use hirsel::run_state::{SQLiteState, StateError, Status as RunStatus, TaskStatus as RunTaskStatus, WorkerStatus as RunWorkerStatus, WorkerUpdate as RunWorkerUpdate, EvalStatus as RunEvalStatus};
use hirsel::state_types::{
    DeliveryStatus, EvalResult, FailureReason, MergeState, Status, ToolCallStatus, WorkerEventType,
    WorkerStatus, WorkerUpdate,
};

#[test]
fn state_type_names_round_trip() {
    for s in [Status::Draft, Status::Working, Status::Paused, Status::Failed, Status::Eval, Status::Done, Status::Delivered] {
        assert_eq!(Status::from_str(s.as_str()), Some(s));
    }
    assert_eq!(Status::from_str("nope"), None);
    assert!(Status::Done.is_terminal());
    assert!(!Status::Done.is_active());
    assert!(Status::Eval.is_active());
    assert_eq!(WorkerStatus::from_str("awaiting"), Some(WorkerStatus::Awaiting));
    assert!(WorkerStatus::Error.is_inactive());
    assert!(WorkerStatus::Awaiting.can_resume());
    assert_eq!(EvalResult::from_str(EvalResult::Pass.as_str()), Some(EvalResult::Pass));
    assert_eq!(DeliveryStatus::default(), DeliveryStatus::Pending);
    assert!(DeliveryStatus::Merged.is_terminal());
    assert_eq!(MergeState::default(), MergeState::Unknown);
    assert_eq!(ToolCallStatus::from_str(ToolCallStatus::InProgress.as_str()), Some(ToolCallStatus::InProgress));
    assert_eq!(WorkerEventType::from_str(WorkerEventType::ToolStart.as_str()), Some(WorkerEventType::ToolStart));
    assert_eq!(FailureReason::from_str(FailureReason::TimeLimit.as_str()), Some(FailureReason::TimeLimit));
    assert!(WorkerUpdate::default().pid.is_none());
}

#[test]
fn run_state_names_round_trip() {
    assert_eq!(RunStatus::from_str("idle"), Some(RunStatus::Idle));
    assert_eq!(RunStatus::from_str(RunStatus::Delivered.as_str()), Some(RunStatus::Delivered));
    assert_eq!(RunWorkerStatus::from_str("waiting"), Some(RunWorkerStatus::Waiting));
    assert!(RunWorkerStatus::Awaiting.is_inactive());
    assert!(!RunWorkerStatus::Working.is_inactive());
    assert_eq!(RunTaskStatus::from_str("doing"), Some(RunTaskStatus::Doing));
    assert_eq!(RunEvalStatus::from_str("passed"), Some(RunEvalStatus::Passed));
}

#[test]
fn tasks_are_claimed_completed_and_settled() {
    let mut s = SQLiteState::new();
    s.add_task("root", "Root", None, None, "t0").unwrap();
    s.add_task("a", "A", Some("root"), None, "t0").unwrap();
    s.add_task("b", "B", Some("root"), Some(&["a"]), "t0").unwrap();
    assert!(matches!(s.add_task("a", "dup", None, None, "t0"), Err(StateError::AlreadyExists(_))));
    assert!(matches!(s.add_task("x", "X", Some("zz"), None, "t0"), Err(StateError::NotFound(_))));
    assert_eq!(s.get_task_depth("a"), 2);
    assert!(s.has_children("root"));
    assert_eq!(s.get_children("root").len(), 2);
    assert!(s.is_task_blocked("b"));
    assert_eq!(s.get_blockers("b"), vec!["a".to_string()]);

    // a parent cannot be claimed; a leaf can, once per worker
    assert!(matches!(s.claim_task("root", "w1", "t1"), Err(StateError::InvalidState(_))));
    s.claim_task("a", "w1", "t1").unwrap();
    assert_eq!(s.get_claimed_task("w1").unwrap().id, "a");
    assert!(matches!(s.claim_task("b", "w1", "t1"), Err(StateError::InvalidState(_))));
    assert!(matches!(s.complete_task("a", "w2", "t2"), Err(StateError::InvalidState(_))));
    s.complete_task("a", "w1", "t2").unwrap();
    assert!(!s.is_task_blocked("b"));
    s.claim_task("b", "w2", "t3").unwrap();
    s.complete_task("b", "w2", "t4").unwrap();
    // the root completes itself once every child is done
    assert_eq!(s.get_task("root").unwrap().status, RunTaskStatus::Done);
}

#[test]
fn claim_then_unclaim_restores_the_task() {
    let mut s = SQLiteState::new();
    s.add_task("a", "A", None, None, "t0").unwrap();
    s.claim_task("a", "w", "t1").unwrap();
    s.unclaim_task("a", "w").unwrap();
    let t = s.get_task("a").unwrap();
    assert_eq!(t.status, RunTaskStatus::Todo);
    assert!(t.claimed_by.is_none());
    assert!(matches!(s.unclaim_task("a", "w"), Err(StateError::InvalidState(_))));
    assert!(matches!(s.unclaim_task("zz", "w"), Err(StateError::NotFound(_))));
    assert_eq!(s.get_claimable_tasks().len(), 1);
}

#[test]
fn deleting_a_task_removes_its_subtree() {
    let mut s = SQLiteState::new();
    s.add_task("r", "R", None, None, "t").unwrap();
    s.add_task("c", "C", Some("r"), None, "t").unwrap();
    s.add_task("other", "O", None, None, "t").unwrap();
    s.delete_task("r").unwrap();
    assert!(s.get_task("r").is_none());
    assert!(s.get_task("c").is_none());
    assert!(s.get_task("other").is_some());
    assert!(matches!(s.delete_task("r"), Err(StateError::NotFound(_))));
}

#[test]
fn workers_are_added_updated_paused_and_resumed() {
    let mut s = SQLiteState::new();
    let w = s.add_worker("w1", "/tmp/w1", "local", "t0").unwrap();
    assert_eq!(w.id, 1);
    assert!(s.add_worker("w1", "/tmp/w1", "local", "t0").is_none());
    let w2 = s.add_worker("w2", "/tmp/w2", "local", "t0").unwrap();
    assert_eq!(w2.id, 2);
    s.update_worker(
        "w1",
        RunWorkerUpdate { pid: Some(42), status: Some(RunWorkerStatus::Working), ..Default::default() },
        "t1",
    );
    let got = s.get_worker("w1").unwrap();
    assert_eq!(got.pid, Some(42));
    assert_eq!(got.status, RunWorkerStatus::Working);
    assert_eq!(s.get_active_workers().len(), 2);
    s.pause_all_workers("user asked", "t2");
    assert_eq!(s.get_worker("w1").unwrap().status, RunWorkerStatus::Paused);
    assert_eq!(s.get_waiting_reason().as_deref(), Some("user asked"));
    s.resume_all_workers("t3");
    assert_eq!(s.get_waiting_reason(), None);
    assert_eq!(s.get_workers().len(), 2);
    assert_eq!(s.status(), RunStatus::Working);
}

#[test]
fn evals_start_complete_and_cancel() {
    let mut s = SQLiteState::new();
    let id = s.start_eval("main", Some("smoke"), None, "t0");
    assert_eq!(id, 1);
    assert_eq!(s.get_running_eval().unwrap().id, 1);
    s.complete_eval(id, true, "fine", "t1");
    assert_eq!(s.get_eval(1).unwrap().status, RunEvalStatus::Passed);
    assert_eq!(s.get_eval_by_name("smoke").unwrap().id, 1);
    let id2 = s.start_eval("main", None, None, "t2");
    assert_eq!(id2, 2);
    assert_eq!(s.cancel_running_evals("stop", "t3"), 1);
    assert_eq!(s.get_eval(2).unwrap().status, RunEvalStatus::Failed);
    assert_eq!(s.get_evals(1).len(), 1);
    assert_eq!(s.get_evals(-1).len(), 2);
}

#[test]
fn average_tokens_of_finished_tasks() {
    let mut s = SQLiteState::new();
    assert_eq!(s.get_avg_task_tokens(), 0);
    s.add_task("a", "A", None, None, "t0").unwrap();
    s.add_task("b", "B", None, None, "t0").unwrap();
    s.add_task("c", "C", None, None, "t0").unwrap();
    s.add_task("scope", "Scope", None, None, "t0").unwrap();
    s.set_task_tokens("a", 10);
    s.set_task_tokens("b", 15);
    s.set_task_tokens("scope", 1000);
    s.admin_complete_task("a", "t1").unwrap();
    s.admin_complete_task("b", "t1").unwrap();
    s.admin_complete_task("scope", "t1").unwrap();
    // c is not done; scope does not count
    assert_eq!(s.get_avg_task_tokens(), 12);
}

#[test]
fn stored_state_is_checked_before_use() {
    let mut s = SQLiteState::new();
    s.add_task("root", "Root", None, None, "t0").unwrap();
    s.add_task("a", "A", Some("root"), None, "t0").unwrap();
    s.add_worker("w1", "/w", "local", "t0").unwrap();
    s.add_message("group", "w1", "hi", false, "t1");
    let ok = SQLiteState::from_stored(s).unwrap();
    assert_eq!(ok.tasks.len(), 2);

    let mut bad = SQLiteState::new();
    bad.add_task("root", "Root", None, None, "t0").unwrap();
    let mut orphan = bad.tasks[0].clone();
    orphan.id = "child".to_string();
    orphan.parent_id = Some("ghost".to_string());
    bad.tasks.push(orphan);
    match SQLiteState::from_stored(bad) {
        Err(StateError::InvalidState(m)) => {
            assert_eq!(m, "stored tasks: a duplicate id or a parent missing before its child")
        }
        other => panic!("unexpected {:?}", other.is_ok()),
    }

    let mut twice = SQLiteState::new();
    twice.add_worker("w1", "/w", "local", "t0").unwrap();
    let copy = twice.workers[0].clone();
    twice.workers.push(copy);
    match SQLiteState::from_stored(twice) {
        Err(StateError::InvalidState(m)) => assert_eq!(m, "stored workers: a duplicate name or ids out of order"),
        other => panic!("unexpected {:?}", other.is_ok()),
    }

    let mut journal = SQLiteState::new();
    journal.add_message("group", "w1", "a", false, "t1");
    journal.add_message("group", "w1", "b", false, "t2");
    journal.journal.messages.swap(0, 1);
    match SQLiteState::from_stored(journal) {
        Err(StateError::InvalidState(m)) => {
            assert_eq!(m, "stored journal: ids out of order or a duplicate read mark")
        }
        other => panic!("unexpected {:?}", other.is_ok()),
    }
}

#[test]
fn listed_active_workers_are_those_at_work() {
    let mut s = SQLiteState::new();
    s.add_worker("w1", "/tmp/w1", "local", "t0").unwrap();
    s.add_worker("w2", "/tmp/w2", "local", "t0").unwrap();
    s.update_worker("w1", RunWorkerUpdate { status: Some(RunWorkerStatus::Working), ..Default::default() }, "t1");
    s.update_worker("w2", RunWorkerUpdate { status: Some(RunWorkerStatus::Paused), ..Default::default() }, "t1");
    let names: Vec<String> = s.list_active_workers().iter().map(|w| w.name.clone()).collect();
    assert_eq!(names, vec!["w1".to_string()]);
    assert_eq!(s.get_active_workers().len(), 2);
}
