use hirsel::run_record::RunRecord;
use hirsel::state_types::{DeliveryStatus, FailureReason, MergeState, StateError, Status};

#[test]
fn record_starts_as_draft() {
    let r = RunRecord::init_state(None, "t0");
    assert_eq!(r.status(), Status::Draft);
    assert_eq!(r.get_failure_reason(), None);
    assert_eq!(r.get_iteration_count(), 0);
    assert_eq!(r.get_docs_version(), 0);
    assert_eq!(r.log.len(), 1);
    assert_eq!(r.log[0].action, "init");
}

#[test]
fn record_transitions_follow_the_machine() {
    let mut r = RunRecord::init_state(None, "t0");
    assert!(matches!(r.set_status(Status::Done, "t1"), Err(StateError::InvalidTransition(Status::Draft, Status::Done))));
    assert_eq!(r.status(), Status::Draft);
    r.set_status(Status::Working, "t1").unwrap();
    r.set_status(Status::Eval, "t1").unwrap();
    r.set_status(Status::Done, "t1").unwrap();
    r.set_status(Status::Delivered, "t1").unwrap();
    assert!(r.set_status(Status::Working, "t1").is_err());
    assert!(r.set_status(Status::Delivered, "t1").is_ok());
    assert!(RunRecord::can_transition_to(Status::Paused, Status::Working));
    assert!(!RunRecord::can_transition_to(Status::Working, Status::Draft));
    // without validation any move is taken
    let mut q = RunRecord::init_state(None, "t0");
    q.set_status_validated(Status::Done, false, "t1").unwrap();
    assert_eq!(q.status(), Status::Done);
    assert_eq!(q.log.last().unwrap().detail.as_deref(), Some("run done"));
}

#[test]
fn record_failure_reason_is_kept_and_cleared() {
    let mut r = RunRecord::init_state(None, "t0");
    // a draft cannot fail, but the reason stays
    assert!(r.set_failed(FailureReason::Manual, "t2").is_err());
    assert_eq!(r.get_failure_reason(), Some(FailureReason::Manual));
    assert_eq!(r.status(), Status::Draft);
    let mut w = RunRecord::init_state(None, "t0");
    w.set_status(Status::Working, "t1").unwrap();
    w.set_failed(FailureReason::TimeLimit, "t2").unwrap();
    assert_eq!(w.status(), Status::Failed);
    assert_eq!(w.get_failure_reason(), Some(FailureReason::TimeLimit));
    w.set_status(Status::Working, "t1").unwrap();
    assert_eq!(w.get_failure_reason(), None);
}

#[test]
fn record_counts_iterations() {
    let mut r = RunRecord::init_state(None, "t0");
    assert_eq!(r.increment_iteration("t3"), 1);
    assert_eq!(r.increment_iteration("t3"), 2);
    assert_eq!(r.get_iteration_count(), 2);
}

#[test]
fn record_scribe_batches() {
    let mut r = RunRecord::init_state(None, "t0");
    let a = r.add_scribe_submission("w1", "learned a", "t1".to_string());
    let b = r.add_scribe_submission("w2", "learned b", "t2".to_string());
    assert_eq!((a, b), (1, 2));
    assert_eq!(r.get_scribe_batch_started_at().as_deref(), Some("t1"));
    assert_eq!(r.get_pending_scribe_submissions().len(), 2);
    assert_eq!(r.get_processing_scribe_batch(), None);
    let batch = r.next_scribe_batch_id();
    assert_eq!(batch, 1);
    r.mark_scribe_processing(&[a], batch);
    assert_eq!(r.get_processing_scribe_batch(), Some(batch));
    let pending: Vec<i64> = r.get_pending_scribe_submissions().iter().map(|s| s.id).collect();
    assert_eq!(pending, vec![b]);
    r.complete_scribe_batch(batch, true, "t3".to_string());
    assert_eq!(r.get_docs_version(), 1);
    assert_eq!(r.get_scribe_batch_started_at(), None);
    assert_eq!(r.submissions[0].status, "done");
    assert_eq!(r.submissions[0].processed_at.as_deref(), Some("t3"));
    assert_eq!(r.log.last().unwrap().detail.as_deref(), Some("Batch 1 completed"));
    assert_eq!(r.next_scribe_batch_id(), 2);
}

#[test]
fn record_failed_batches_retry_twice() {
    let mut r = RunRecord::init_state(None, "t0");
    let a = r.add_scribe_submission("w1", "x", "t1".to_string());
    for round in 0..3 {
        let batch = r.next_scribe_batch_id();
        r.mark_scribe_processing(&[a], batch);
        r.complete_scribe_batch(batch, false, format!("t{}", round + 2));
        assert_eq!(r.submissions[0].status, "failed");
        assert_eq!(r.submissions[0].retry_count, round + 1);
        let waiting = r.get_pending_scribe_submissions().len();
        assert_eq!(waiting, if round < 2 { 1 } else { 0 });
    }
    assert_eq!(r.get_docs_version(), 0);
    assert_eq!(r.log.last().unwrap().detail.as_deref(), Some("Batch 3 failed"));
}

#[test]
fn record_columns_and_delivery() {
    let mut r = RunRecord::init_state(Some("/p"), "t0");
    assert_eq!(r.get_project_path().as_deref(), Some("/p"));
    assert_eq!(r.get_created_at().as_deref(), Some("t0"));
    assert!(matches!(r.get_route_id(), Err(StateError::NotFound(_))));
    r.set_route_id(9, "t1");
    assert_eq!(r.get_route_id().unwrap(), 9);
    assert_eq!(r.get_updated_at().as_deref(), Some("t1"));
    assert_eq!(r.get_runner_for_worker("w1"), "local");
    r.set_default_runner(Some("docker"), "t2");
    assert_eq!(r.get_runner_for_worker("w1"), "docker");
    let runners = vec![("w1".to_string(), "ssh".to_string())];
    r.set_worker_runners(Some(runners.as_slice()), "t2");
    assert_eq!(r.get_runner_for_worker("w1"), "ssh");
    assert_eq!(r.get_runner_for_worker("w2"), "docker");
    let ids = vec!["a".to_string(), "b".to_string()];
    r.set_source_task_ids(Some(ids.as_slice()), "t3");
    assert_eq!(r.get_source_task_ids(), Some(ids));
    assert_eq!(r.get_delivery_status(), DeliveryStatus::Pending);
    assert_eq!(r.get_merge_state(), MergeState::Unknown);
    // a draft cannot be delivered, but the delivery columns are written
    assert!(r.mark_delivered("t4").is_err());
    assert_eq!(r.get_delivery_status(), DeliveryStatus::Merged);
    assert_eq!(r.get_merged_at().as_deref(), Some("t4"));
    r.set_status(Status::Working, "t5").unwrap();
    r.set_status(Status::Done, "t5").unwrap();
    r.mark_delivered("t6").unwrap();
    assert_eq!(r.status(), Status::Delivered);
    assert_eq!(r.log.last().unwrap().action, "delivered");
    r.mark_abandoned("t7");
    assert_eq!(r.get_delivery_status(), DeliveryStatus::Abandoned);
    assert_eq!(r.get_abandoned_at().as_deref(), Some("t7"));
}

#[test]
fn record_scaling_checks_and_modes() {
    let mut r = RunRecord::init_state(None, "t0");
    assert!(!r.consume_scaling_check());
    r.request_scaling_check();
    r.request_scaling_check();
    assert!(r.consume_scaling_check());
    assert!(!r.consume_scaling_check());
    // no project yet: the change is kept but nobody is told
    assert!(r.set_human_in_the_loop(false, "t1").is_none());
    assert!(!r.get_human_in_the_loop());
    r.set_project_id(3, "t2");
    r.set_route_id(4, "t2");
    assert!(r.set_human_in_the_loop(false, "t3").is_none());
    let n = r.set_human_in_the_loop(true, "t4").unwrap();
    assert_eq!((n.project_id, n.route_id), (3, 4));
    assert!(n.text.starts_with("The user is now available"));
    assert_eq!(r.get_pause_mode(), "sender");
    r.set_time_limit_minutes(Some(1), "t5");
    r.set_started_at(Some("t5"), "t5");
    assert_eq!(r.is_time_expired(Some(59)).unwrap(), false);
    assert_eq!(r.is_time_expired(Some(60)).unwrap(), true);
    r.set_staleness_commits(7, "t6");
    assert_eq!(r.get_staleness_commits(), 7);
    r.set_is_test(true, "t6");
    assert!(r.is_test_run());
}

#[test]
fn state_error_messages() {
    assert_eq!(StateError::NotFound("route_id not set".to_string()).to_message(), "Not found: route_id not set");
    assert_eq!(StateError::InvalidState("x".to_string()).to_message(), "Invalid state: x");
    assert_eq!(StateError::AlreadyExists("w".to_string()).to_message(), "Already exists: w");
    assert_eq!(StateError::Blocked("b".to_string()).to_message(), "Blocked: b");
    assert_eq!(
        StateError::InvalidTransition(Status::Done, Status::Working).to_message(),
        "Invalid transition: done -> working"
    );
}
