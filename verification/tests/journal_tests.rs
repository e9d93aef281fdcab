use hirsel::run_state::{SQLiteState, Status, ToolCallStatus, WorkerEventType};

fn initialised() -> SQLiteState {
    let mut s = SQLiteState::new();
    s.init_state(Some("/work/project"), "2024-01-01T00:00:00");
    s
}

#[test]
fn journal_messages_by_thread_and_time() {
    let mut s = initialised();
    assert_eq!(s.add_message("group", "w1", "hello", false, "2024-01-01T00:00:01"), 1);
    assert_eq!(s.add_message("user", "w2", "question", true, "2024-01-01T00:00:02"), 2);
    assert_eq!(s.add_message("group", "w2", "hi", false, "2024-01-01T00:00:03"), 3);
    let group: Vec<i64> = s.get_messages("group", 10).iter().map(|m| m.id).collect();
    assert_eq!(group, vec![1, 3]);
    assert_eq!(s.get_messages("group", 1).len(), 1);
    assert_eq!(s.get_messages("group", -1).len(), 2);
    assert_eq!(s.get_thread_message_count("group"), 2);
    assert_eq!(s.get_thread_message_count("nobody"), 0);
    let since: Vec<i64> = s.get_messages_since("2024-01-01T00:00:01", None).iter().map(|m| m.id).collect();
    assert_eq!(since, vec![2, 3]);
    let since_not_w2: Vec<i64> =
        s.get_messages_since("2024-01-01T00:00:00", Some("w2")).iter().map(|m| m.id).collect();
    assert_eq!(since_not_w2, vec![1]);
    assert!(s.get_messages("user", 10)[0].waiting);
}

#[test]
fn journal_threads_are_sorted_and_distinct() {
    let mut s = initialised();
    s.add_message("zeta", "a", "1", false, "t1");
    s.add_message("alpha", "a", "2", false, "t2");
    s.add_message("zeta", "b", "3", false, "t3");
    s.add_message("mid", "b", "4", false, "t4");
    assert_eq!(s.get_threads(), vec!["alpha".to_string(), "mid".to_string(), "zeta".to_string()]);
}

#[test]
fn journal_read_marks() {
    let mut s = initialised();
    s.add_message("group", "w1", "a", false, "t1");
    s.add_message("group", "w2", "b", false, "t2");
    s.add_message("other", "w2", "c", false, "t3");
    // w1 does not see its own messages
    let unread: Vec<i64> = s.get_unread_messages("group", "w1").iter().map(|m| m.id).collect();
    assert_eq!(unread, vec![2]);
    let all: Vec<i64> = s.get_all_unread_messages("w1").iter().map(|m| m.id).collect();
    assert_eq!(all, vec![2, 3]);
    s.mark_messages_read("group", "w1", None);
    assert!(s.get_unread_messages("group", "w1").is_empty());
    s.add_message("group", "w3", "d", false, "t4");
    let unread: Vec<i64> = s.get_unread_messages("group", "w1").iter().map(|m| m.id).collect();
    assert_eq!(unread, vec![4]);
    s.mark_messages_read("group", "w1", Some(1));
    assert_eq!(s.get_unread_messages("group", "w1").len(), 2);
    assert_eq!(s.journal.reads.len(), 1);
}

#[test]
fn journal_compaction_replaces_messages() {
    let mut s = initialised();
    s.add_message("group", "w1", "a", false, "t1");
    s.add_message("group", "w1", "b", false, "t2");
    s.add_message("group", "w1", "c", false, "t3");
    s.mark_messages_read("group", "w2", None);
    s.compact_messages("group", &[], "nothing", "t4");
    assert_eq!(s.get_thread_message_count("group"), 3);
    s.compact_messages("group", &[2, 3], "summary", "t5");
    let left = s.get_messages("group", -1);
    assert_eq!(left.iter().map(|m| m.id).collect::<Vec<i64>>(), vec![1, 2]);
    assert_eq!(left[1].sender, "hirsel");
    assert_eq!(left[1].content, "summary");
    assert!(s.journal.reads.is_empty());
    assert_eq!(s.log.last().unwrap().detail.as_deref(), Some("Compacted 2 messages in thread 'group'"));
}

#[test]
fn journal_amendments_and_history() {
    let mut s = initialised();
    assert_eq!(s.get_last_spec_hash(), None);
    assert_eq!(s.add_amendment("make it blue", "h1", "user", "t1"), 1);
    assert_eq!(s.add_amendment("and round", "h2", "user", "t2"), 2);
    assert_eq!(s.get_amendments().len(), 2);
    assert_eq!(s.get_last_spec_hash().as_deref(), Some("h2"));
    assert!(s.get_history(10).is_empty());
}

#[test]
fn journal_worker_events() {
    let mut s = initialised();
    assert_eq!(s.insert_text_event("w1", "working", "t1"), 1);
    assert_eq!(s.insert_thought_event("w1", "hmm", "t2"), 2);
    assert_eq!(s.insert_tool_start_event("w2", "c1", "Read", Some("read"), ToolCallStatus::InProgress, None, "t3"), 3);
    assert_eq!(s.insert_tool_update_event("w1", "c2", None, Some(ToolCallStatus::Completed), Some("{}"), "t4"), 4);
    let w1 = s.get_all_worker_events("w1", 100);
    assert_eq!(w1.iter().map(|e| e.id).collect::<Vec<i64>>(), vec![1, 2, 4]);
    assert_eq!(w1[1].event_type, WorkerEventType::Thought);
    assert_eq!(w1[2].tool_output.as_deref(), Some("{}"));
    let after: Vec<i64> = s.get_worker_events("w1", Some(1), 1).iter().map(|e| e.id).collect();
    assert_eq!(after, vec![2]);
    s.clear_worker_events("w1");
    assert!(s.get_all_worker_events("w1", 100).is_empty());
    assert_eq!(s.get_all_worker_events("w2", 100).len(), 1);
}

#[test]
fn settings_defaults_and_setters() {
    let mut s = SQLiteState::new();
    // before the row exists, getters give defaults and setters do nothing
    assert!(s.get_human_in_the_loop());
    assert_eq!(s.get_pause_mode(), "sender");
    s.set_request(Some("build it"), "t0");
    assert_eq!(s.get_request(), None);
    assert_eq!(s.get_created_at(), None);
    s.init_state(None, "t1");
    assert_eq!(s.get_created_at().as_deref(), Some("t1"));
    s.set_request(Some("build it"), "t2");
    assert_eq!(s.get_request().as_deref(), Some("build it"));
    s.set_project_path("/p", "t2");
    assert_eq!(s.get_project_path().as_deref(), Some("/p"));
    s.set_worker_scale("3", "t2");
    assert_eq!(s.get_worker_scale().as_deref(), Some("3"));
    s.set_summary("done things", "t3");
    assert_eq!(s.get_summary().as_deref(), Some("done things"));
    assert_eq!(s.increment_iteration("t3"), 1);
    assert_eq!(s.get_iteration_count(), 1);
    s.set_max_iterations(Some(5), "t3");
    assert_eq!(s.get_max_iterations(), Some(5));
    s.set_pause_mode("all", "t3");
    assert_eq!(s.get_pause_mode(), "all");
    s.increment_unread();
    s.increment_unread();
    assert_eq!(s.get_unread_count(), 2);
    s.clear_unread();
    assert_eq!(s.get_unread_count(), 0);
    s.set_learnings_processed_at("t4", "t4");
    assert_eq!(s.get_learnings_processed_at().as_deref(), Some("t4"));
}

#[test]
fn settings_human_in_the_loop_notifies_group() {
    let mut s = SQLiteState::new();
    s.init_state(None, "t1");
    s.set_human_in_the_loop(false, "t2");
    assert!(!s.get_human_in_the_loop());
    let group = s.get_messages("group", -1);
    assert_eq!(group.len(), 1);
    assert_eq!(group[0].sender, "System");
    assert!(group[0].content.starts_with("The user is currently unavailable"));
    assert_eq!(s.log.last().unwrap().detail.as_deref(), Some("yolo"));
}

#[test]
fn settings_time_budget() {
    let mut s = SQLiteState::new();
    s.init_state(None, "t1");
    assert_eq!(s.is_time_expired(Some(10_000)).unwrap(), false);
    s.set_time_limit_minutes(Some(10), "t2");
    s.set_started_at(None, "2024-01-01T00:00:00");
    assert_eq!(s.get_started_at().as_deref(), Some("2024-01-01T00:00:00"));
    assert_eq!(s.is_time_expired(Some(599)).unwrap(), false);
    assert_eq!(s.is_time_expired(Some(600)).unwrap(), true);
    assert!(s.is_time_expired(None).is_err());
    s.set_last_time_notification_pct(50, "t3");
    assert_eq!(s.get_last_time_notification_pct(), Some(50));
    s.clear_time_tracking("t4");
    assert_eq!(s.get_started_at(), None);
    assert_eq!(s.get_last_time_notification_pct(), None);
    assert_eq!(s.is_time_expired(Some(10_000)).unwrap(), false);
}

#[test]
fn settings_status_creates_the_row() {
    let mut s = SQLiteState::new();
    s.set_waiting_reason(Some("why"), "t0");
    assert_eq!(s.get_waiting_reason(), None);
    s.set_status(Status::Working, "t1");
    assert_eq!(s.get_created_at().as_deref(), Some("t1"));
    s.set_waiting_reason(Some("why"), "t2");
    assert_eq!(s.get_waiting_reason().as_deref(), Some("why"));
    s.init_state(Some("/x"), "t3");
    assert_eq!(s.status(), Status::Idle);
    assert_eq!(s.get_waiting_reason(), None);
}

#[test]
fn store_eval_pid_and_paused_evals() {
    let mut s = SQLiteState::new();
    let a = s.start_eval("main", Some("smoke"), None, "t0");
    s.set_eval_pid(a, 4242);
    assert_eq!(s.get_eval(a).unwrap().pid, Some(4242));
    assert!(!s.has_paused_eval());
    s.cancel_running_evals("Run paused", "t1");
    assert!(s.has_paused_eval());
    s.clear_paused_evals();
    assert!(!s.has_paused_eval());
    assert_eq!(s.get_eval(a).unwrap().feedback.as_deref(), Some("Paused and resumed"));
}

#[test]
fn store_workers_waiting_for_user_and_deletion() {
    let mut s = SQLiteState::new();
    s.add_worker("w1", "/tmp/w1", "local", "t0");
    s.add_worker("w2", "/tmp/w2", "local", "t0");
    s.workers[1].hitl_waiting = true;
    s.workers[1].waiting_thread = Some("user".to_string());
    let waiting: Vec<String> = s.get_hitl_waiting_workers().iter().map(|w| w.name.clone()).collect();
    assert_eq!(waiting, vec!["w2".to_string()]);
    s.clear_all_hitl_waiting();
    assert!(s.get_hitl_waiting_workers().is_empty());
    assert_eq!(s.get_worker("w2").unwrap().waiting_thread, None);
    assert!(s.delete_worker("w1").is_ok());
    assert!(s.get_worker("w1").is_none());
    match s.delete_worker("w1") {
        Err(hirsel::run_state::StateError::NotFound(m)) => assert_eq!(m, "Worker 'w1' not found"),
        _ => panic!("expected NotFound"),
    }
}

#[test]
fn journal_posted_message_is_read_last() {
    let mut s = initialised();
    s.add_message("group", "w1", "one", false, "2024-01-01T00:00:01");
    s.add_message("other", "w1", "elsewhere", false, "2024-01-01T00:00:02");
    let id = s.add_message("group", "w2", "two", true, "2024-01-01T00:00:03");
    let all = s.get_messages("group", -1);
    assert_eq!(all.len(), 2);
    assert_eq!(all[0].content, "one");
    assert_eq!(all.last().unwrap().id, id);
    assert_eq!(s.get_messages("group", 5).last().unwrap().content, "two");
}
