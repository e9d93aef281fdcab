use hirsel::chat_store::{ShepherdChatError, ShepherdChatStore, PROJECT_CHAT_RUN_NAME};
use hirsel::shepherd::{
    assistant_reply, enqueue_shepherd_message_for_scope, plan_sync_start, tool_chunks_from_records, SyncStart,
    ToolCallRecord, image_ref_ids, settle_queued_turn, turn_texts, ScopeProcessors,
    ShepherdMessageChunk, ShepherdQueueState, ShepherdScope,
};

fn ts(n: u32) -> String {
    format!("2024-01-01T00:00:{:02}Z", n)
}

#[test]
fn chat_scope_keeps_latest_messages_in_time_order() {
    let mut store = ShepherdChatStore::open();
    let a = store.save_project_message(7, "user", "[1]", ts(1));
    let b = store.save_project_message(7, "assistant", "[2]", ts(3));
    let c = store.save_project_message(7, "user", "[3]", ts(2));
    store.save_project_message(8, "user", "[other]", ts(4));
    assert_eq!((a, b, c), (1, 2, 3));
    let all = store.get_project_messages(7, 10);
    let ids: Vec<i64> = all.iter().map(|m| m.id).collect();
    assert_eq!(ids, vec![1, 3, 2]);
    let last_two = store.get_project_messages(7, 2);
    let ids: Vec<i64> = last_two.iter().map(|m| m.id).collect();
    assert_eq!(ids, vec![3, 2]);
    assert_eq!(last_two[0].runtime_name.as_deref(), Some(PROJECT_CHAT_RUN_NAME));
    assert_eq!(store.get_project_messages(7, 0).len(), 0);
}

#[test]
fn chat_runtime_names() {
    assert_eq!(ShepherdChatStore::project_chat_run_name(), "__project__");
    assert_eq!(ShepherdChatStore::effort_runtime_name("e1"), "__effort__:e1");
}

#[test]
fn chat_messages_without_project_and_clearing() {
    let mut store = ShepherdChatStore::open();
    store.save_message(Some("run-a"), "user", "[a]", ts(1));
    store.save_message(Some("run-b"), "user", "[b]", ts(2));
    store.save_message(None, "user", "[none]", ts(3));
    assert_eq!(store.get_messages(Some("run-a")).len(), 1);
    assert_eq!(store.get_messages(None).len(), 1);
    store.clear_messages(Some("run-a"));
    assert_eq!(store.get_messages(Some("run-a")).len(), 0);
    assert_eq!(store.get_messages(Some("run-b")).len(), 1);
    store.save_project_message(3, "user", "[p]", ts(4));
    store.clear_project_history(3);
    assert_eq!(store.get_project_messages(3, 10).len(), 0);
    assert_eq!(store.get_messages(Some("run-b")).len(), 1);
}

#[test]
fn chat_queue_claims_oldest_pending_first() {
    let mut store = ShepherdChatStore::open();
    let t1 = store.enqueue_turn(Some(1), Some("__project__"), "[x]", None, ts(5)).unwrap();
    let t2 = store.enqueue_turn(Some(1), Some("__project__"), "[y]", Some("{}"), ts(2)).unwrap();
    store.enqueue_turn(Some(2), Some("__project__"), "[z]", None, ts(1)).unwrap();
    assert_eq!(t1.status, "pending");
    assert_eq!(t2.focus_json.as_deref(), Some("{}"));
    let queued: Vec<i64> = store.list_queue(Some(1), Some("__project__")).iter().map(|t| t.id).collect();
    assert_eq!(queued, vec![t2.id, t1.id]);
    let first = store.claim_next_turn(Some(1), Some("__project__"), ts(9)).unwrap().unwrap();
    assert_eq!(first.id, t2.id);
    assert_eq!(first.status, "working");
    assert_eq!(first.started_at.as_deref(), Some(ts(9).as_str()));
    let second = store.claim_next_turn(Some(1), Some("__project__"), ts(10)).unwrap().unwrap();
    assert_eq!(second.id, t1.id);
    assert!(store.claim_next_turn(Some(1), Some("__project__"), ts(11)).unwrap().is_none());
    store.complete_turn(first.id, ts(12)).unwrap();
    store.fail_turn(second.id, "boom", ts(13)).unwrap();
    let done = store.get_queue_item(first.id).unwrap();
    assert_eq!(done.status, "done");
    let failed = store.get_queue_item(second.id).unwrap();
    assert_eq!(failed.status, "failed");
    assert_eq!(failed.error.as_deref(), Some("boom"));
    // done turns leave the listing; failed ones stay
    let queued: Vec<i64> = store.list_queue(Some(1), Some("__project__")).iter().map(|t| t.id).collect();
    assert_eq!(queued, vec![second.id]);
}

#[test]
fn chat_queue_missing_item_is_an_error() {
    let store = ShepherdChatStore::open();
    match store.get_queue_item(42) {
        Err(ShepherdChatError::Database(m)) => assert!(m.contains("no rows")),
        Ok(_) => panic!("expected an error"),
    }
}

#[test]
fn chat_effort_focus_is_unique_per_project() {
    let mut store = ShepherdChatStore::open();
    store.create_effort(1, 10, "w1", "First", "", true, "e1".to_string(), ts(1)).unwrap();
    store.create_effort(1, 10, "w2", "Second", "", true, "e2".to_string(), ts(2)).unwrap();
    store.create_effort(2, 10, "w3", "Other", "", true, "e3".to_string(), ts(3)).unwrap();
    assert!(!store.get_effort("e1").unwrap().focused);
    assert!(store.get_effort("e2").unwrap().focused);
    assert!(store.get_effort("e3").unwrap().focused);
    store.set_focused_effort(1, "e1", ts(4)).unwrap();
    assert!(store.get_effort("e1").unwrap().focused);
    assert!(!store.get_effort("e2").unwrap().focused);
    let focused = store.focused_effort(1, 10).unwrap().unwrap();
    assert_eq!(focused.id, "e1");
    assert_eq!(focused.last_activity_at, ts(4));
    let listed: Vec<String> = store.list_project_efforts(1, 10).unwrap().iter().map(|e| e.id.clone()).collect();
    assert_eq!(listed, vec!["e1".to_string(), "e2".to_string()]);
}

#[test]
fn chat_effort_duplicate_id_is_refused() {
    let mut store = ShepherdChatStore::open();
    store.create_effort(1, 1, "w", "t", "s", false, "e".to_string(), ts(1)).unwrap();
    assert!(matches!(
        store.create_effort(1, 1, "w", "t", "s", false, "e".to_string(), ts(2)),
        Err(ShepherdChatError::Database(_))
    ));
    assert!(store.get_effort("missing").is_err());
}

#[test]
fn chat_effort_update_and_archive() {
    let mut store = ShepherdChatStore::open();
    store.create_effort(1, 1, "w", "t", "old", true, "e".to_string(), ts(1)).unwrap();
    store.update_effort("e", Some("new"), None, ts(2)).unwrap();
    let e = store.get_effort("e").unwrap();
    assert_eq!(e.summary, "new");
    assert_eq!(e.updated_at, ts(2));
    store.archive_effort("e", ts(3)).unwrap();
    let e = store.get_effort("e").unwrap();
    assert_eq!(e.archived_at.as_deref(), Some(ts(3).as_str()));
    assert!(store.list_project_efforts(1, 1).unwrap().is_empty());
    assert!(store.focused_effort(1, 1).unwrap().is_none());
}

#[test]
fn chat_delete_project_and_run() {
    let mut store = ShepherdChatStore::open();
    store.save_project_message(1, "user", "[a]", ts(1));
    store.save_message(Some("run-x"), "user", "[b]", ts(2));
    store.enqueue_turn(Some(1), Some("__project__"), "[q]", None, ts(3)).unwrap();
    store.enqueue_turn(None, Some("run-x"), "[r]", None, ts(4)).unwrap();
    store.create_effort(1, 1, "w", "t", "s", true, "e".to_string(), ts(5)).unwrap();
    store.delete_project_messages(1).unwrap();
    assert!(store.get_project_messages(1, 10).is_empty());
    assert!(store.list_queue(Some(1), Some("__project__")).is_empty());
    assert!(store.get_effort("e").is_err());
    assert_eq!(store.get_messages(Some("run-x")).len(), 1);
    store.delete_run_messages("run-x").unwrap();
    assert!(store.get_messages(Some("run-x")).is_empty());
    assert!(store.list_queue(None, Some("run-x")).is_empty());
}

#[test]
fn chat_settling_a_queued_effort_turn() {
    let mut store = ShepherdChatStore::open();
    store.create_effort(1, 1, "w", "t", "", true, "e1".to_string(), ts(1)).unwrap();
    let turn = store.enqueue_turn(Some(1), Some("__effort__:e1"), "[q]", None, ts(2)).unwrap();
    let scope = ShepherdScope::Effort { project_id: 1, effort_id: "e1".to_string() };
    let answer = Ok(vec![ShepherdMessageChunk::Text { content: "all good".to_string() }]);
    settle_queued_turn(&mut store, &scope, turn.id, &answer, ts(3));
    assert_eq!(store.get_queue_item(turn.id).unwrap().status, "done");
    let e = store.get_effort("e1").unwrap();
    assert_eq!(e.status, "active");
    assert!(e.summary.contains("all good"));
    let second = store.enqueue_turn(Some(1), Some("__effort__:e1"), "[r]", None, ts(4)).unwrap();
    settle_queued_turn(&mut store, &scope, second.id, &Err("boom".to_string()), ts(5));
    assert_eq!(store.get_queue_item(second.id).unwrap().error.as_deref(), Some("boom"));
    let e = store.get_effort("e1").unwrap();
    assert_eq!((e.status.as_str(), e.summary.as_str()), ("failed", "boom"));
}

#[test]
fn chat_enqueue_counts_waiting_turns_of_the_scope() {
    let mut store = ShepherdChatStore::open();
    let mut procs = ScopeProcessors::new();
    let scope = ShepherdScope::Effort { project_id: 4, effort_id: "e9".to_string() };
    let first = enqueue_shepherd_message_for_scope(&mut store, &mut procs, &scope, "[1]", None, ts(1)).unwrap();
    assert!(first.queued);
    assert_eq!(first.queue_depth, 1);
    assert_eq!(first.effort_id.as_deref(), Some("e9"));
    assert_eq!(procs.active, vec!["effort:4:e9".to_string()]);
    let second =
        enqueue_shepherd_message_for_scope(&mut store, &mut procs, &scope, "[2]", Some("{\"task_id\":\"t\"}"), ts(2))
            .unwrap();
    assert_eq!(second.queue_depth, 2);
    assert_eq!(procs.active.len(), 1);
    let project = ShepherdScope::Project { project_id: 4 };
    let third = enqueue_shepherd_message_for_scope(&mut store, &mut procs, &project, "[3]", None, ts(3)).unwrap();
    assert_eq!(third.queue_depth, 1);
    assert_eq!(third.effort_id, None);
    assert_eq!(procs.active.len(), 2);
    let taken = store.claim_next_turn(Some(4), Some("__effort__:e9"), ts(4)).unwrap().unwrap();
    assert_eq!(taken.chunks_json, "[1]");
    let items = store.list_queue(Some(4), Some("__effort__:e9"));
    let state = ShepherdQueueState::of_items(items);
    assert!(state.has_active_turn);
    assert_eq!(state.items.len(), 2);
    assert_eq!(store.count_waiting_turns(Some(4), Some("__effort__:e9")), 1);
    assert!(!ShepherdQueueState::of_items(store.list_queue(Some(4), Some("__project__"))).has_active_turn);
}

#[test]
fn chat_branch_scope_takes_no_message() {
    let mut store = ShepherdChatStore::open();
    let mut procs = ScopeProcessors::new();
    let scope = ShepherdScope::Branch { runtime_id: "r1".to_string() };
    let r = enqueue_shepherd_message_for_scope(&mut store, &mut procs, &scope, "[1]", None, ts(1));
    assert_eq!(r.unwrap_err(), "Branch scopes cannot accept durable user-facing messages");
    assert!(store.queue.is_empty());
    assert!(procs.active.is_empty());
}

#[test]
fn chat_turn_inputs_and_reply() {
    assert_eq!(turn_texts(None, "hi"), vec!["hi".to_string()]);
    let with = turn_texts(Some("use plan B"), "hi");
    assert_eq!(with.len(), 2);
    assert!(with[0].starts_with("Private branch conclusion for this turn."));
    assert!(with[0].ends_with("to the user.\n\nuse plan B"));
    assert_eq!(with[1], "hi");
    assert_eq!(image_ref_ids("image-", 0), Vec::<String>::new());
    assert_eq!(image_ref_ids("image-", 11)[10], "image-11");
    assert_eq!(image_ref_ids("image-", 2), vec!["image-1".to_string(), "image-2".to_string()]);
    assert_eq!(image_ref_ids("branch-image-", 1), vec!["branch-image-1".to_string()]);
    let tool = ShepherdMessageChunk::Tool {
        id: "t1".to_string(),
        title: "read".to_string(),
        kind: "read".to_string(),
        status: "completed".to_string(),
        input: None,
        output: None,
    };
    let r = assistant_reply("  done  ".to_string(), vec![tool]).unwrap();
    assert_eq!(r.len(), 2);
    match &r[0] {
        ShepherdMessageChunk::Text { content } => assert_eq!(content, "  done  "),
        other => panic!("unexpected {:?}", other),
    }
    let only_tools = assistant_reply("   ".to_string(), vec![ShepherdMessageChunk::Text { content: "x".to_string() }]).unwrap();
    assert_eq!(only_tools.len(), 1);
    assert_eq!(
        assistant_reply(" ".to_string(), vec![]).unwrap_err(),
        "Shepherd returned no user-visible output for this turn."
    );
}

#[test]
fn chat_unfocus_clears_only_that_project() {
    let mut store = ShepherdChatStore::open();
    store.create_effort(1, 10, "w1", "First", "", true, "e1".to_string(), ts(1)).unwrap();
    store.create_effort(2, 10, "w2", "Other", "", true, "e2".to_string(), ts(2)).unwrap();
    store.unfocus_project_efforts(1);
    assert!(store.focused_effort(1, 10).unwrap().is_none());
    assert!(!store.get_effort("e1").unwrap().focused);
    assert_eq!(store.get_effort("e1").unwrap().updated_at, ts(1));
    assert!(store.get_effort("e2").unwrap().focused);
}

#[test]
fn chat_latest_saved_message_is_read_last() {
    let mut store = ShepherdChatStore::open();
    store.save_project_message(5, "user", "[a]", ts(1));
    store.save_project_message(5, "assistant", "[b]", ts(2));
    let id = store.save_project_message(5, "user", "[c]", ts(9));
    for limit in 1..4 {
        let got = store.get_project_messages(5, limit);
        assert_eq!(got.last().unwrap().id, id);
        assert_eq!(got.len(), limit);
    }
}

#[test]
fn chat_lone_queued_turn_is_claimed_next() {
    let mut store = ShepherdChatStore::open();
    store.enqueue_turn(Some(2), Some("__project__"), "[other]", None, ts(1)).unwrap();
    let t = store.enqueue_turn(Some(3), Some("__project__"), "[mine]", None, ts(2)).unwrap();
    let got = store.claim_next_turn(Some(3), Some("__project__"), ts(3)).unwrap().unwrap();
    assert_eq!(got.id, t.id);
    assert_eq!(got.status, "working");
    assert!(store.claim_next_turn(Some(3), Some("__project__"), ts(4)).unwrap().is_none());
}

#[test]
fn chat_sync_start_plan() {
    assert!(matches!(plan_sync_start("working"), SyncStart::AlreadyRunning));
    match plan_sync_start("todo") {
        SyncStart::Start(p) => {
            assert_eq!(p.event_kind, "sync_started");
            assert_eq!(p.event_actor_kind, "channel");
            assert_eq!(p.event_actor, "main");
            assert_eq!(p.event_summary, "Project sync started.");
            assert_eq!(p.effort_title, "Project sync");
            assert!(p.effort_focused);
            assert!(p.effort_note.starts_with("Project sync started.\n\nI\u{2019}m surveying"));
        }
        SyncStart::AlreadyRunning => panic!("should start"),
    }
}

#[test]
fn chat_tool_records_become_chunks() {
    let records = vec![
        ToolCallRecord {
            call_id: Some("call-9".to_string()),
            title: "Read file".to_string(),
            kind: "read".to_string(),
            success: true,
            args_json: Some("{\"path\":\"a\"}".to_string()),
            result_json: None,
        },
        ToolCallRecord {
            call_id: None,
            title: "Run".to_string(),
            kind: "execute".to_string(),
            success: false,
            args_json: None,
            result_json: Some("\"boom\"".to_string()),
        },
    ];
    let chunks = tool_chunks_from_records(&records);
    assert_eq!(chunks.len(), 2);
    match &chunks[0] {
        ShepherdMessageChunk::Tool { id, status, input, .. } => {
            assert_eq!(id, "call-9");
            assert_eq!(status, "completed");
            assert_eq!(input.as_deref(), Some("{\"path\":\"a\"}"));
        }
        other => panic!("unexpected {:?}", other),
    }
    match &chunks[1] {
        ShepherdMessageChunk::Tool { id, status, kind, output, .. } => {
            assert_eq!(id, "tool-2");
            assert_eq!(status, "failed");
            assert_eq!(kind, "execute");
            assert_eq!(output.as_deref(), Some("\"boom\""));
        }
        other => panic!("unexpected {:?}", other),
    }
}
