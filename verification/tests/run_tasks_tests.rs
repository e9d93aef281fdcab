use hirsel::run_tasks::{
    worker_counts, ClaimRejectReason, ClaimTaskResult, DeltaTaskInput, FlowTask, RunTasks, TaskSource,
    TaskStatus, TaskType,
};
use hirsel::state_types::{EvalResult, StateError, Worker, WorkerStatus, WorkerUpdate};

fn task(id: &str, kind: TaskType, status: TaskStatus) -> FlowTask {
    FlowTask {
        id: id.to_string(),
        name: format!("Task {}", id),
        status,
        task_type: kind,
        created_at: "t0".to_string(),
        completed_at: None,
        claimed_by: None,
        claimed_at: None,
        parent_id: None,
        blocked_by: vec![],
        eval_result: None,
        eval_feedback: None,
        board_task_id: Some("board-1".to_string()),
        source: TaskSource::Spec,
        pending_done_at: None,
        tokens_used: None,
        assigned_to: None,
        completed_by: None,
    }
}

fn worker(name: &str) -> Worker {
    Worker {
        id: 1,
        name: name.to_string(),
        pid: None,
        runner_id: None,
        runner_type: None,
        session_id: None,
        session_started_at: None,
        status: WorkerStatus::Working,
        work_dir: None,
        waiting_thread: None,
        needs_restart: false,
        location: "local".to_string(),
        last_heartbeat: None,
        created_at: "t0".to_string(),
        hitl_waiting: false,
        state_handle: None,
        assigned_task_id: Some("e1".to_string()),
        last_task_id: None,
    }
}

fn link(e: &str, t: &str) -> (String, String) {
    (e.to_string(), t.to_string())
}

fn ids(ts: &[FlowTask]) -> Vec<String> {
    ts.iter().map(|t| t.id.clone()).collect()
}

#[test]
fn claimable_tasks_put_ready_evals_first() {
    let mut w1 = task("w1", TaskType::Work, TaskStatus::Done);
    w1.name = "first".to_string();
    let w2 = task("w2", TaskType::Work, TaskStatus::Todo);
    let mut w3 = task("w3", TaskType::Work, TaskStatus::Todo);
    w3.blocked_by = vec!["w1".to_string()];
    let e1 = task("e1", TaskType::Eval, TaskStatus::Todo);
    let e2 = task("e2", TaskType::Eval, TaskStatus::Todo);
    let mut w4 = task("w4", TaskType::Work, TaskStatus::Todo);
    w4.blocked_by = vec!["w2".to_string()];
    let parent = task("p", TaskType::Work, TaskStatus::Todo);
    let mut child = task("c", TaskType::Work, TaskStatus::Todo);
    child.parent_id = Some("p".to_string());
    let s = RunTasks::from_stored(
        vec![w1, w2, w3, e1, e2, w4, parent, child],
        vec![link("e1", "w1"), link("e2", "w2")],
        vec![],
    )
    .unwrap();
    // e1 validates a done task; e2's task is not done; w3 waits for w1's eval.
    assert_eq!(ids(&s.get_claimable_tasks()), vec!["e1", "w2", "c"]);
}

#[test]
fn claims_are_refused_in_order() {
    let mut doing = task("d", TaskType::Work, TaskStatus::Doing);
    doing.claimed_by = Some("alice".to_string());
    let done = task("x", TaskType::Work, TaskStatus::Validated);
    let free = task("f", TaskType::Work, TaskStatus::Todo);
    let mut blocked = task("b", TaskType::Work, TaskStatus::Todo);
    blocked.blocked_by = vec!["f".to_string()];
    let e = task("e", TaskType::Eval, TaskStatus::Todo);
    let mut s = RunTasks::from_stored(vec![doing, done, free, blocked, e], vec![link("e", "f")], vec![]).unwrap();

    match s.try_claim_task("nope", "bob", "t1") {
        ClaimTaskResult::Rejected { reason: ClaimRejectReason::NotFound { task_id }, alternatives } => {
            assert_eq!(task_id, "nope");
            let alt: Vec<String> = alternatives.iter().map(|a| a.id.clone()).collect();
            assert_eq!(alt, vec!["f"]);
        }
        other => panic!("unexpected {:?}", other),
    }
    match s.try_claim_task("x", "bob", "t1") {
        ClaimTaskResult::Rejected { reason: ClaimRejectReason::AlreadyComplete { status, .. }, .. } => {
            assert_eq!(status, TaskStatus::Validated)
        }
        other => panic!("unexpected {:?}", other),
    }
    match s.try_claim_task("d", "bob", "t1") {
        ClaimTaskResult::Rejected { reason: ClaimRejectReason::ClaimedByOther { claimed_by, .. }, .. } => {
            assert_eq!(claimed_by, "alice")
        }
        other => panic!("unexpected {:?}", other),
    }
    assert!(matches!(s.try_claim_task("d", "alice", "t1"), ClaimTaskResult::Success { .. }));
    match s.try_claim_task("f", "alice", "t1") {
        ClaimTaskResult::Rejected { reason: ClaimRejectReason::WorkerBusy { existing_task_id }, alternatives } => {
            assert_eq!(existing_task_id, "d");
            assert!(alternatives.is_empty());
        }
        other => panic!("unexpected {:?}", other),
    }
    match s.try_claim_task("b", "bob", "t1") {
        ClaimTaskResult::Rejected { reason: ClaimRejectReason::Blocked { blockers, .. }, .. } => {
            assert_eq!(blockers.len(), 1);
            assert_eq!(blockers[0].task_id, "f");
            assert_eq!(blockers[0].status, TaskStatus::Todo);
        }
        other => panic!("unexpected {:?}", other),
    }
    match s.try_claim_task("e", "bob", "t1") {
        ClaimTaskResult::Rejected { reason: ClaimRejectReason::EvalNotReady { pending_tasks, .. }, .. } => {
            assert_eq!(pending_tasks.len(), 1);
            assert_eq!(pending_tasks[0].id, "f");
        }
        other => panic!("unexpected {:?}", other),
    }
    assert!(s.log.is_empty());
    match s.try_claim_task("f", "bob", "t2") {
        ClaimTaskResult::Success { task } => {
            assert_eq!(task.status, TaskStatus::Doing);
            assert_eq!(task.claimed_by.as_deref(), Some("bob"));
            assert_eq!(task.claimed_at.as_deref(), Some("t2"));
        }
        other => panic!("unexpected {:?}", other),
    }
    assert_eq!(s.log.len(), 1);
    assert_eq!(s.log[0].action, "task_claim");
    assert_eq!(s.log[0].detail.as_deref(), Some("f by bob"));
}

#[test]
fn a_parent_cannot_be_claimed() {
    let parent = task("p", TaskType::Work, TaskStatus::Todo);
    let mut c1 = task("c1", TaskType::Work, TaskStatus::Todo);
    c1.parent_id = Some("p".to_string());
    let mut c2 = task("c2", TaskType::Work, TaskStatus::Done);
    c2.parent_id = Some("p".to_string());
    let mut s = RunTasks::from_stored(vec![parent, c1, c2], vec![], vec![]).unwrap();
    match s.try_claim_task("p", "bob", "t1") {
        ClaimTaskResult::Rejected { reason: ClaimRejectReason::HasChildren { children, .. }, .. } => {
            assert_eq!(children, vec!["c1".to_string(), "c2".to_string()])
        }
        other => panic!("unexpected {:?}", other),
    }
}

#[test]
fn a_failed_eval_creates_a_repair_task() {
    let w = task("w", TaskType::Work, TaskStatus::AwaitingEval);
    let v = task("v", TaskType::Work, TaskStatus::Validated);
    let mut e = task("e1", TaskType::Eval, TaskStatus::Doing);
    e.claimed_by = Some("bob".to_string());
    let mut s =
        RunTasks::from_stored(vec![w, v, e], vec![link("e1", "w"), link("e1", "v")], vec![worker("bob")]).unwrap();

    assert!(matches!(s.eval_fail("zz", "bob", "x", "t"), Err(StateError::NotFound(m)) if m == "Task 'zz' not found"));
    assert!(matches!(s.eval_fail("w", "bob", "x", "t"), Err(StateError::InvalidState(m)) if m == "Task 'w' is not an eval task"));
    assert!(
        matches!(s.eval_fail("e1", "carol", "x", "t"), Err(StateError::InvalidState(m)) if m == "Eval task 'e1' is not claimed by carol")
    );

    let feedback = "The login form accepts an empty password and the error message is missing entirely.";
    let id = s.eval_fail("e1", "bob", feedback, "2024-05-01T10:20:30.5Z").unwrap();
    assert_eq!(id, "e1-repair-20240501T1020305Z");
    let repair = s.tasks.iter().find(|t| t.id == id).unwrap();
    assert_eq!(repair.name, format!("Repair: {}", &feedback[..50]));
    assert_eq!(repair.parent_id.as_deref(), Some("e1"));
    assert_eq!(repair.task_type, TaskType::Work);
    assert_eq!(repair.source, TaskSource::Worker);
    assert_eq!(repair.board_task_id.as_deref(), Some("board-1"));
    let eval = s.tasks.iter().find(|t| t.id == "e1").unwrap();
    assert_eq!(eval.status, TaskStatus::Todo);
    assert_eq!(eval.eval_result, Some(EvalResult::Fail));
    assert_eq!(eval.claimed_by, None);
    assert_eq!(eval.blocked_by, vec![id.clone()]);
    assert_eq!(s.tasks[0].status, TaskStatus::NeedsRepair);
    assert_eq!(s.tasks[1].status, TaskStatus::Validated);
    assert_eq!(s.log.last().unwrap().action, "eval_fail");
    assert_eq!(s.workers[0].last_task_id.as_deref(), Some("e1"));
    assert_eq!(s.workers[0].assigned_task_id.as_deref(), Some(""));
    // The eval now waits for its repair.
    assert!(!s.get_claimable_tasks().iter().any(|t| t.id == "e1"));
    assert!(s.get_claimable_tasks().iter().any(|t| t.id == id));
}

#[test]
fn worker_updates_write_what_is_given() {
    let mut s = RunTasks::from_stored(vec![], vec![], vec![worker("bob"), worker("amy")]).unwrap();
    let mut u = WorkerUpdate::default();
    u.runner_id = Some("r-1".to_string());
    u.session_id = Some("s-9".to_string());
    u.status = Some(WorkerStatus::Paused);
    u.hitl_waiting = Some(true);
    u.state_handle = Some(None);
    s.apply_worker_update("bob", u, "t5");
    let bob = &s.workers[0];
    assert_eq!(bob.runner_id.as_deref(), Some("r-1"));
    assert_eq!(bob.session_started_at.as_deref(), Some("t5"));
    assert_eq!(bob.status, WorkerStatus::Paused);
    assert!(bob.hitl_waiting);
    assert_eq!(bob.state_handle.as_deref(), Some(""));
    assert_eq!(s.workers[1].status, WorkerStatus::Working);
    assert_eq!(s.log.len(), 1);
    assert_eq!(s.log[0].detail.as_deref(), Some("bob \u{2192} paused"));
    let mut same = WorkerUpdate::default();
    same.status = Some(WorkerStatus::Paused);
    s.apply_worker_update("bob", same, "t6");
    assert_eq!(s.log.len(), 1);
}

#[test]
fn stored_tasks_are_checked() {
    let mut a = task("a", TaskType::Work, TaskStatus::Doing);
    a.claimed_by = Some("bob".to_string());
    let mut b = task("b", TaskType::Work, TaskStatus::Doing);
    b.claimed_by = Some("bob".to_string());
    assert!(matches!(RunTasks::from_stored(vec![a, b], vec![], vec![]), Err(StateError::InvalidState(_))));
    let dup = vec![task("a", TaskType::Work, TaskStatus::Todo), task("a", TaskType::Eval, TaskStatus::Todo)];
    assert!(matches!(RunTasks::from_stored(dup, vec![], vec![]), Err(StateError::InvalidState(_))));
    assert_eq!(RunTasks::new().tasks.len(), 0);
}

#[test]
fn work_lifecycle_through_eval_pass() {
    let w = task("w", TaskType::Work, TaskStatus::Todo);
    let e = task("e", TaskType::Eval, TaskStatus::Todo);
    let mut s = RunTasks::from_stored(vec![w, e], vec![link("e", "w")], vec![worker("bob")]).unwrap();
    assert!(matches!(s.try_claim_task("w", "bob", "t1"), ClaimTaskResult::Success { .. }));
    assert!(matches!(s.complete_task("w", "amy", "t2"), Err(StateError::InvalidState(m)) if m == "Task 'w' is not claimed by bob".replace("bob", "amy")));
    s.complete_task("w", "bob", "t2").unwrap();
    assert_eq!(s.tasks[0].status, TaskStatus::AwaitingEval);
    assert_eq!(s.tasks[0].completed_at.as_deref(), Some("t2"));
    assert_eq!(s.log.last().unwrap().detail.as_deref(), Some("w by bob (awaiting_eval)"));
    assert_eq!(ids(&s.get_claimable_tasks()), vec!["e"]);
    assert!(matches!(s.try_claim_task("e", "bob", "t3"), ClaimTaskResult::Success { .. }));
    s.eval_pass("e", "bob", "t4").unwrap();
    assert_eq!(s.tasks[0].status, TaskStatus::Validated);
    assert_eq!(s.tasks[1].status, TaskStatus::Done);
    assert_eq!(s.tasks[1].eval_result, Some(EvalResult::Pass));
    assert_eq!(s.workers[0].last_task_id.as_deref(), Some("e"));
}

#[test]
fn completing_the_last_child_completes_its_parents() {
    let root = task("r", TaskType::Work, TaskStatus::Todo);
    let mut mid = task("m", TaskType::Work, TaskStatus::Todo);
    mid.parent_id = Some("r".to_string());
    let mut a = task("a", TaskType::Work, TaskStatus::Done);
    a.parent_id = Some("m".to_string());
    let mut b = task("b", TaskType::Work, TaskStatus::Doing);
    b.parent_id = Some("m".to_string());
    b.claimed_by = Some("bob".to_string());
    let mut s = RunTasks::from_stored(vec![root, mid, a, b], vec![], vec![]).unwrap();
    s.complete_task("b", "bob", "t9").unwrap();
    assert!(s.tasks.iter().all(|t| t.status == TaskStatus::Done));
    let details: Vec<String> = s.log.iter().map(|l| l.detail.clone().unwrap()).collect();
    assert_eq!(details, vec!["b by bob (done)", "m (auto-completed)", "r (auto-completed)"]);
}

#[test]
fn unclaiming_returns_the_task() {
    let mut t = task("t", TaskType::Work, TaskStatus::Doing);
    t.claimed_by = Some("bob".to_string());
    t.claimed_at = Some("t0".to_string());
    let mut s = RunTasks::from_stored(vec![t], vec![], vec![]).unwrap();
    assert!(matches!(s.unclaim_task("t", "amy"), Err(StateError::InvalidState(_))));
    assert!(matches!(s.unclaim_task("zz", "bob"), Err(StateError::NotFound(_))));
    s.unclaim_task("t", "bob").unwrap();
    assert_eq!(s.tasks[0].status, TaskStatus::Todo);
    assert_eq!(s.tasks[0].claimed_by, None);
    assert_eq!(s.log[0].action, "task_unclaim");
}

#[test]
fn worker_counts_follow_scale_or_records() {
    let mut idle = worker("w2");
    idle.status = WorkerStatus::Awaiting;
    let workers = vec![worker("w1"), idle];
    let c = worker_counts(&workers, Some("5"));
    assert_eq!(c.workers_active, 1);
    assert_eq!(c.workers_total, 2);
    assert_eq!(c.workers_desired, 5);
    let c = worker_counts(&workers, Some("many"));
    assert_eq!(c.workers_desired, 2);
    let c = worker_counts(&workers, None);
    assert_eq!(c.workers_desired, 2);
    let c = worker_counts(&vec![], Some("+3"));
    assert_eq!((c.workers_active, c.workers_total, c.workers_desired), (0, 0, 3));
}

#[test]
fn tasks_are_added_under_depth_and_id_rules() {
    let mut s = RunTasks::new();
    assert!(s.add_task("a", "A", None, None, "t1").is_ok());
    assert!(s.add_task("b", "B", Some("a"), None, "t1").is_ok());
    assert!(s.add_task("c", "C", Some("b"), None, "t1").is_ok());
    assert_eq!(s.get_task_depth("c"), 3);
    assert_eq!(s.get_task_depth("zz"), 0);
    assert!(matches!(s.add_task("d", "D", Some("c"), None, "t1"), Err(StateError::InvalidState(m)) if m == "Cannot add child to 'c': max hierarchy depth is 3"));
    assert!(matches!(s.add_task("d", "D", Some("zz"), None, "t1"), Err(StateError::NotFound(m)) if m == "Parent task 'zz' not found"));
    assert!(matches!(s.add_task("a", "again", None, None, "t1"), Err(StateError::AlreadyExists(m)) if m == "Task 'a' already exists"));
    let blockers = vec!["a".to_string()];
    let targets = vec!["a".to_string(), "b".to_string()];
    assert!(s.add_task_with_type("e", "Check", None, Some(&blockers), TaskType::Eval, Some(&targets), Some("bt"), "t2").is_ok());
    let e = s.get_task("e").unwrap();
    assert_eq!(e.status, TaskStatus::Todo);
    assert_eq!(e.source, TaskSource::Spec);
    assert_eq!(e.blocked_by, vec!["a"]);
    assert_eq!(e.board_task_id.as_deref(), Some("bt"));
    assert_eq!(s.get_validated_tasks("e"), vec!["a", "b"]);
    assert!(s.has_validating_eval("b"));
    assert!(!s.has_validating_eval("c"));
    assert!(s.has_children("a"));
    assert!(!s.has_children("c"));
    assert_eq!(s.get_task("b").unwrap().source, TaskSource::Worker);
    let last = s.log.last().unwrap();
    assert_eq!(last.action, "task_add");
    assert_eq!(last.detail.as_deref(), Some("e: Check (eval) (blocked by: a) (validates: a, b)"));
    assert_eq!(s.log[1].detail.as_deref(), Some("b: B (work) (parent: a)"));
}

#[test]
fn blockers_count_by_task_type() {
    let done = task("d", TaskType::Work, TaskStatus::Done);
    let todo = task("t", TaskType::Work, TaskStatus::Todo);
    let mut w = task("w", TaskType::Work, TaskStatus::Todo);
    w.blocked_by = vec!["d".to_string(), "t".to_string(), "gone".to_string()];
    let mut e = task("e", TaskType::Eval, TaskStatus::Todo);
    e.blocked_by = vec!["d".to_string()];
    let v = task("v", TaskType::Eval, TaskStatus::Todo);
    let mut s = RunTasks::from_stored(vec![done, todo, w, e, v], vec![link("v", "d")], vec![]).unwrap();
    // d is done but awaits its eval v, so it still blocks work; t is not done.
    assert_eq!(s.get_blockers("w"), vec!["d", "t"]);
    assert!(s.is_task_blocked("w"));
    // an eval only waits for completion.
    assert!(!s.is_task_blocked("e"));
    assert!(!s.is_task_blocked("nope"));
    assert!(s.get_blockers("nope").is_empty());
    assert!(s.add_blocker("e", "t").is_ok());
    assert!(s.add_blocker("e", "t").is_ok());
    assert_eq!(s.get_task("e").unwrap().blocked_by, vec!["d", "t"]);
    assert!(s.is_task_blocked("e"));
    assert!(matches!(s.add_blocker("e", "gone"), Err(StateError::NotFound(m)) if m == "Task 'gone' not found"));
    assert_eq!(s.log.len(), 2);
    assert_eq!(s.log[0].detail.as_deref(), Some("e blocked by t"));
}

#[test]
fn admin_actions_and_reopening() {
    let mut p = task("p", TaskType::Work, TaskStatus::Todo);
    p.board_task_id = None;
    let mut c = task("c", TaskType::Work, TaskStatus::Doing);
    c.parent_id = Some("p".to_string());
    c.claimed_by = Some("alice".to_string());
    c.claimed_at = Some("t0".to_string());
    let mut s = RunTasks::from_stored(vec![p, c], vec![], vec![]).unwrap();
    assert_eq!(s.get_claimed_task("alice").unwrap().id, "c");
    assert!(s.get_claimed_task("bob").is_none());
    assert!(s.admin_unclaim_task("c").is_ok());
    let c = s.get_task("c").unwrap();
    assert_eq!((c.status, c.claimed_by), (TaskStatus::Todo, None));
    assert!(s.admin_unclaim_task("c").is_ok());
    assert_eq!(s.log.len(), 1);
    assert_eq!(s.log[0].detail.as_deref(), Some("c (admin)"));
    assert!(matches!(s.reopen_task("c"), Err(StateError::InvalidState(m)) if m == "Task 'c' is not done"));
    assert!(s.admin_complete_task("c", "t5").is_ok());
    assert_eq!(s.get_task("c").unwrap().status, TaskStatus::Done);
    let p = s.get_task("p").unwrap();
    assert_eq!((p.status, p.completed_at.as_deref()), (TaskStatus::Done, Some("t5")));
    assert_eq!(s.log[2].detail.as_deref(), Some("p (auto-completed)"));
    assert!(s.reopen_task("c").is_ok());
    let c = s.get_task("c").unwrap();
    assert_eq!((c.status, c.completed_at), (TaskStatus::Todo, None));
    assert!(matches!(s.admin_complete_task("missing", "t6"), Err(StateError::NotFound(m)) if m == "Task 'missing' not found"));
}

fn delta(id: &str, parent: Option<&str>, blocked: &[&str], validates: &[&str], kind: TaskType) -> DeltaTaskInput {
    DeltaTaskInput {
        task_id: id.to_string(),
        name: format!("N{}", id),
        parent_id: parent.map(|p| p.to_string()),
        task_type: kind,
        board_task_id: None,
        source: TaskSource::Spec,
        blocked_by: if blocked.is_empty() { None } else { Some(blocked.iter().map(|b| b.to_string()).collect()) },
        validates: if validates.is_empty() { None } else { Some(validates.iter().map(|v| v.to_string()).collect()) },
    }
}

#[test]
fn a_batch_adds_in_order_and_ignores_repeats() {
    let mut s = RunTasks::new();
    assert!(s.add_task("old", "Old", None, None, "t0").is_ok());
    let batch = vec![
        delta("a", None, &["b"], &[], TaskType::Work),
        delta("b", Some("a"), &[], &[], TaskType::Work),
        delta("old", None, &["a", "a"], &[], TaskType::Work),
        delta("e", None, &[], &["a", "b", "a"], TaskType::Eval),
    ];
    assert!(s.add_tasks_batch(&batch, "t1").is_ok());
    let ids: Vec<String> = s.tasks.iter().map(|t| t.id.clone()).collect();
    assert_eq!(ids, vec!["old", "a", "b", "e"]);
    assert_eq!(s.get_task("old").unwrap().name, "Old");
    assert_eq!(s.get_task("old").unwrap().blocked_by, vec!["a"]);
    assert_eq!(s.get_task("a").unwrap().blocked_by, vec!["b"]);
    assert_eq!(s.get_task("b").unwrap().parent_id.as_deref(), Some("a"));
    assert_eq!(s.get_validated_tasks("e"), vec!["a", "b"]);
    assert_eq!(s.log.len(), 5);
    assert_eq!(s.log[3].detail.as_deref(), Some("old: Nold (work)"));
    assert_eq!(s.log[4].detail.as_deref(), Some("e: Ne (eval)"));
}

#[test]
fn a_batch_with_a_bad_parent_changes_nothing() {
    let mut s = RunTasks::new();
    let batch = vec![
        delta("a", None, &[], &[], TaskType::Work),
        delta("b", Some("a"), &[], &[], TaskType::Work),
        delta("c", Some("b"), &[], &[], TaskType::Work),
        delta("d", Some("c"), &[], &[], TaskType::Work),
    ];
    assert!(matches!(s.add_tasks_batch(&batch, "t1"),
        Err(StateError::InvalidState(m)) if m == "Cannot add child to 'c': max hierarchy depth is 3"));
    assert!(s.tasks.is_empty());
    assert!(s.log.is_empty());
    let batch = vec![delta("x", None, &[], &["y"], TaskType::Eval), delta("z", Some("nope"), &[], &[], TaskType::Work)];
    assert!(matches!(s.add_tasks_batch(&batch, "t1"),
        Err(StateError::NotFound(m)) if m == "Parent task 'nope' not found"));
    assert!(s.tasks.is_empty());
    assert!(s.validates.is_empty());
}

#[test]
fn get_children_lists_in_creation_order() {
    let mut s = RunTasks::new();
    assert!(s.add_task("p", "P", None, None, "t0").is_ok());
    assert!(s.add_task("c2", "C2", Some("p"), None, "t1").is_ok());
    assert!(s.add_task("q", "Q", None, None, "t1").is_ok());
    assert!(s.add_task("c1", "C1", Some("p"), None, "t2").is_ok());
    let kids: Vec<String> = s.get_children("p").iter().map(|t| t.id.clone()).collect();
    assert_eq!(kids, vec!["c2", "c1"]);
    assert!(s.get_children("q").is_empty());
}

#[test]
fn deleting_removes_the_subtree_and_its_blockers() {
    let mut s = RunTasks::new();
    assert!(s.add_task("p", "P", None, None, "t0").is_ok());
    assert!(s.add_task("c", "C", Some("p"), None, "t0").is_ok());
    assert!(s.add_task("g", "G", Some("c"), None, "t0").is_ok());
    let blockers = vec!["g".to_string(), "q".to_string()];
    assert!(s.add_task("q", "Q", None, None, "t0").is_ok());
    assert!(s.add_task("w", "W", None, Some(&blockers), "t0").is_ok());
    assert!(matches!(s.delete_task("zz"), Err(StateError::NotFound(m)) if m == "Task 'zz' not found"));
    assert!(matches!(s.try_claim_task("g", "amy", "t1"), ClaimTaskResult::Success { .. }));
    assert!(matches!(s.delete_task("p"),
        Err(StateError::InvalidState(m)) if m == "Child task 'g' is currently claimed and cannot be deleted"));
    assert!(matches!(s.delete_task("g"),
        Err(StateError::InvalidState(m)) if m == "Task 'g' is currently claimed and cannot be deleted"));
    assert!(s.unclaim_task("g", "amy").is_ok());
    let before = s.log.len();
    assert!(s.delete_task("p").is_ok());
    let ids: Vec<String> = s.tasks.iter().map(|t| t.id.clone()).collect();
    assert_eq!(ids, vec!["q", "w"]);
    assert_eq!(s.get_task("w").unwrap().blocked_by, vec!["q"]);
    assert_eq!(s.log.len(), before + 1);
    assert_eq!(s.log[before].detail.as_deref(), Some("p (and 2 children)"));
    assert!(s.delete_task("q").is_ok());
    assert_eq!(s.log.last().unwrap().detail.as_deref(), Some("q"));
    assert!(s.get_task("w").unwrap().blocked_by.is_empty());
}

#[test]
fn task_columns_are_written() {
    let mut s = RunTasks::new();
    assert!(s.add_task("a", "A", None, None, "t0").is_ok());
    assert!(s.set_task_assigned_to("a", Some("amy")).is_ok());
    assert_eq!(s.get_task("a").unwrap().assigned_to.as_deref(), Some("amy"));
    assert_eq!(s.log.last().unwrap().detail.as_deref(), Some("a \u{2192} amy"));
    let n = s.log.len();
    assert!(s.set_task_assigned_to("a", None).is_ok());
    assert_eq!(s.get_task("a").unwrap().assigned_to, None);
    assert_eq!(s.log.len(), n);
    assert!(matches!(s.set_task_assigned_to("zz", Some("amy")), Err(StateError::NotFound(m)) if m == "Task 'zz' not found"));
    s.set_task_pending_done("a", "t3");
    assert_eq!(s.get_task("a").unwrap().pending_done_at.as_deref(), Some("t3"));
    s.clear_task_pending_done("a");
    assert_eq!(s.get_task("a").unwrap().pending_done_at, None);
    s.set_task_tokens("a", 1200);
    assert_eq!(s.get_task("a").unwrap().tokens_used, Some(1200));
    s.set_task_tokens("zz", 5);
    assert_eq!(s.tasks.len(), 1);
    assert!(matches!(s.try_claim_task("a", "amy", "t4"), ClaimTaskResult::Success { .. }));
    assert!(s.complete_task("a", "amy", "t5").is_ok());
    assert_eq!(s.get_task("a").unwrap().completed_by.as_deref(), Some("amy"));
}

#[test]
fn claim_task_answers_refusals_as_errors() {
    let mut s = RunTasks::new();
    assert!(s.add_task("a", "A", None, None, "t0").is_ok());
    assert!(s.add_task("b", "B", None, None, "t0").is_ok());
    assert!(s.claim_task("a", "amy", "t1").is_ok());
    assert!(s.claim_task("a", "amy", "t2").is_ok());
    assert_eq!(s.get_task("a").unwrap().claimed_at.as_deref(), Some("t1"));
    assert!(matches!(s.claim_task("b", "amy", "t2"), Err(StateError::InvalidState(m)) if m.contains("WorkerBusy")));
    assert!(matches!(s.claim_task("a", "bob", "t2"), Err(StateError::InvalidState(_))));
    assert_eq!(s.get_tasks().len(), 2);
    assert_eq!(s.log.len(), 3);
}

#[test]
fn average_tokens_of_done_tasks() {
    let mut a = task("a", TaskType::Work, TaskStatus::Done);
    a.tokens_used = Some(100);
    let mut b = task("b", TaskType::Work, TaskStatus::Done);
    b.tokens_used = Some(-7);
    let mut scope = task("scope", TaskType::Work, TaskStatus::Done);
    scope.tokens_used = Some(1_000_000);
    let mut open = task("o", TaskType::Work, TaskStatus::Todo);
    open.tokens_used = Some(50);
    let c = task("c", TaskType::Work, TaskStatus::Done);
    let s = RunTasks::from_stored(vec![a, b, scope, open, c], vec![], vec![]).unwrap();
    assert_eq!(s.get_avg_task_tokens(), 46);
    assert_eq!(RunTasks::new().get_avg_task_tokens(), 0);
}
