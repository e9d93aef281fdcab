use hirsel::service_worker::{
    parse_u32_str, ready_endpoint, should_use_remote, spawn_args, endpoint_for_port,
    ServiceWorkerError, ServiceWorkerHandle, ServiceWorkerType,
};
use hirsel::chat_store::ShepherdChatStore;
use hirsel::shepherd::{
    result_summary_from_chunks, scope_queue_key, scope_storage_ids, truncate_internal_note,
    plan_sync_finish, LocalShepherdEngine, ScopeProcessors, ShepherdCommandStatus,
    ShepherdCommandType, ShepherdDecisionType, ShepherdMessageChunk, ShepherdScope,
};
use hirsel::state_types::{Status, WorkerStatus};
use hirsel::web::{
    api_key_accepted, asset_candidate, provider_name, sanitize_return_to, GypError, LlmProvider,
};
use hirsel::worker_routes::{
    heartbeat_update, status_change_event, HeartbeatResponse, SuccessResponse, UpdateWorkerRequest,
};

fn request(status: Option<&str>) -> UpdateWorkerRequest {
    UpdateWorkerRequest {
        pid: Some(7),
        session_id: Some("s".to_string()),
        status: status.map(|s| s.to_string()),
        waiting_thread: None,
        needs_restart: Some(true),
        last_heartbeat: None,
    }
}

#[test]
fn success_responses() {
    let ok = SuccessResponse::ok();
    assert!(ok.success && ok.error.is_none());
    let err = SuccessResponse::err("boom");
    assert!(!err.success);
    assert_eq!(err.error, Some("boom".to_string()));
}

#[test]
fn update_requests_parse_statuses() {
    assert_eq!(request(Some("working")).parse_status(), Some(WorkerStatus::Working));
    assert_eq!(request(Some("awaiting")).parse_status(), Some(WorkerStatus::Awaiting));
    assert_eq!(request(Some("paused")).parse_status(), Some(WorkerStatus::Paused));
    assert_eq!(request(Some("error")).parse_status(), Some(WorkerStatus::Error));
    assert_eq!(request(Some("idle")).parse_status(), None);
    assert_eq!(request(None).parse_status(), None);
    let u = request(Some("paused")).to_worker_update();
    assert_eq!(u.pid, Some(7));
    assert_eq!(u.session_id, Some("s".to_string()));
    assert_eq!(u.status, Some(WorkerStatus::Paused));
    assert_eq!(u.needs_restart, Some(true));
    assert!(u.runner_id.is_none() && u.state_handle.is_none());
    let h = heartbeat_update("t".to_string());
    assert_eq!(h.last_heartbeat, Some("t".to_string()));
    assert!(h.status.is_none());
    assert_eq!(HeartbeatResponse::for_status(Status::Working).status, "working");
}

#[test]
fn only_changes_to_awaiting_are_reported() {
    assert_eq!(
        status_change_event(Some(WorkerStatus::Working), Some(WorkerStatus::Awaiting)),
        Some((WorkerStatus::Working, WorkerStatus::Awaiting))
    );
    assert_eq!(status_change_event(Some(WorkerStatus::Awaiting), Some(WorkerStatus::Awaiting)), None);
    assert_eq!(status_change_event(Some(WorkerStatus::Working), Some(WorkerStatus::Paused)), None);
    assert_eq!(status_change_event(None, Some(WorkerStatus::Awaiting)), None);
}

#[test]
fn service_worker_types() {
    assert_eq!(ServiceWorkerType::Scribe.as_str(), "scribe");
    assert_eq!(ServiceWorkerType::ConflictResolver.as_str(), "conflict-resolver");
    assert_eq!(ServiceWorkerType::Scribe.default_idle_timeout(), 300);
    assert_eq!(ServiceWorkerType::ConflictResolver.default_idle_timeout(), 600);
    assert_eq!(ServiceWorkerType::Scribe.log_name(), "ScribeService");
    let h = ServiceWorkerHandle::new(
        ServiceWorkerType::Scribe,
        "http://localhost:12345".to_string(),
        "local".to_string(),
        "4242".to_string(),
        "2024-01-01T00:00:00Z".to_string(),
    );
    assert_eq!(h.health_url(), "http://localhost:12345/health");
    assert_eq!(h.scribe_batch_url(), "http://localhost:12345/scribe/batch");
    assert_eq!(h.local_pid(), Some(4242));
    let remote = ServiceWorkerHandle::new(
        ServiceWorkerType::Scribe,
        "e".to_string(),
        "fly".to_string(),
        "4242".to_string(),
        "t".to_string(),
    );
    assert_eq!(remote.local_pid(), None);
}

#[test]
fn u32_parsing_matches_str_parse() {
    for s in ["0", "42", "+7", "4294967295", "", "+", "-1", "4294967296", "12a", "007"] {
        assert_eq!(parse_u32_str(s), s.parse::<u32>().ok(), "input {:?}", s);
    }
}

#[test]
fn remote_execution_and_spawn_arguments() {
    assert!(!should_use_remote(None, true));
    assert!(!should_use_remote(Some("local"), true));
    assert!(should_use_remote(Some("fly"), true));
    assert!(!should_use_remote(Some("fly"), false));
    let args = spawn_args(ServiceWorkerType::ConflictResolver, 600);
    assert_eq!(args, vec!["__service-worker", "--type", "conflict-resolver", "--idle-timeout", "600"]);
}

#[test]
fn ready_lines_give_endpoints() {
    assert_eq!(ready_endpoint(30, "{\"status\":\"ready\",\"port\":12345}\n").unwrap(), "http://127.0.0.1:12345");
    match ready_endpoint(5, "  junk \n") {
        Err(ServiceWorkerError::SpawnFailed(m)) => assert_eq!(m, "Invalid ready message: junk"),
        other => panic!("unexpected {:?}", other),
    }
    match ready_endpoint(0, "") {
        Err(ServiceWorkerError::SpawnFailed(m)) => assert_eq!(m, "Worker exited before ready"),
        other => panic!("unexpected {:?}", other),
    }
    assert_eq!(endpoint_for_port(Some(8), "x").unwrap(), "http://127.0.0.1:8");
}

#[test]
fn local_engine_answers() {
    let e = LocalShepherdEngine;
    assert_eq!(e.start_run_context(3, -4).unwrap(), "shepherd:3:-4");
    let d = e.ingest_user_message("run", "say \"hi\"", "now".to_string()).unwrap();
    assert_eq!(d.decision_type, ShepherdDecisionType::Message);
    assert_eq!(d.summary, "Accepted user instruction");
    assert_eq!(d.payload_json, "{\"message\":\"say \\\"hi\\\"\"}");
    let cmds = e.issue_assignments("run", "now".to_string()).unwrap();
    assert_eq!(cmds.len(), 1);
    assert_eq!(cmds[0].command_type, ShepherdCommandType::SpawnWorker);
    assert_eq!(cmds[0].status, ShepherdCommandStatus::Pending);
    assert_eq!(cmds[0].payload_json, "{}");
}

#[test]
fn scope_keys_and_storage() {
    assert_eq!(scope_queue_key(&ShepherdScope::General), Some("general".to_string()));
    assert_eq!(scope_queue_key(&ShepherdScope::Project { project_id: 5 }), Some("project:5".to_string()));
    assert_eq!(
        scope_queue_key(&ShepherdScope::Effort { project_id: 5, effort_id: "e1".to_string() }),
        Some("effort:5:e1".to_string())
    );
    assert_eq!(scope_queue_key(&ShepherdScope::Branch { runtime_id: "b".to_string() }), None);
    assert_eq!(scope_storage_ids(&ShepherdScope::General), (None, None));
    assert_eq!(
        scope_storage_ids(&ShepherdScope::Project { project_id: 5 }),
        (Some(5), Some("__project__".to_string()))
    );
    assert_eq!(
        scope_storage_ids(&ShepherdScope::Effort { project_id: 5, effort_id: "e1".to_string() }),
        (Some(5), Some("__effort__:e1".to_string()))
    );
    assert_eq!(ShepherdChatStore::effort_runtime_name("abc"), "__effort__:abc");
}

#[test]
fn notes_and_summaries_are_trimmed_and_cut() {
    assert_eq!(truncate_internal_note("  short  ", 10), "short");
    assert_eq!(truncate_internal_note("abcdefgh", 3), "abc...");
    let chunks = vec![
        ShepherdMessageChunk::Text { content: "  first  ".to_string() },
        ShepherdMessageChunk::Tool {
            id: "t".to_string(),
            title: "x".to_string(),
            kind: "k".to_string(),
            status: "completed".to_string(),
            input: None,
            output: None,
        },
        ShepherdMessageChunk::Text { content: "   ".to_string() },
        ShepherdMessageChunk::Text { content: "second".to_string() },
    ];
    assert_eq!(result_summary_from_chunks(&chunks), "first\n\nsecond");
    assert_eq!(result_summary_from_chunks(&[]), "No summary available yet.");
    let long = vec![ShepherdMessageChunk::Text { content: "x".repeat(300) }];
    let s = result_summary_from_chunks(&long);
    assert_eq!(s, format!("{}...", "x".repeat(240)));
}

#[test]
fn one_processor_per_scope() {
    let mut p = ScopeProcessors::new();
    let scope = ShepherdScope::Project { project_id: 1 };
    assert_eq!(p.kick(&scope).unwrap(), Some("project:1".to_string()));
    assert_eq!(p.kick(&scope).unwrap(), None);
    p.finish("project:1");
    assert_eq!(p.kick(&scope).unwrap(), Some("project:1".to_string()));
    assert_eq!(
        p.kick(&ShepherdScope::Branch { runtime_id: "b".to_string() }),
        Err("branch scope cannot own durable queued turns".to_string())
    );
}

#[test]
fn web_helpers() {
    assert_eq!(provider_name(LlmProvider::Codex), "codex");
    assert_eq!(provider_name(LlmProvider::Openrouter), "openrouter");
    assert_eq!(sanitize_return_to(Some("/app/projects/1")), "/app/projects/1");
    assert_eq!(sanitize_return_to(Some("https://evil.example")), "/app");
    assert_eq!(sanitize_return_to(None), "/app");
    assert!(api_key_accepted("/health", None, None, "k"));
    assert!(api_key_accepted("/api", Some("Bearer k"), None, "k"));
    assert!(api_key_accepted("/api", Some("Basic x"), Some("k"), "k"));
    assert!(!api_key_accepted("/api", Some("Bearer x"), Some("k"), "k"));
    assert!(!api_key_accepted("/api", None, None, "k"));
    assert_eq!(GypError::SessionNotFound("s".to_string()).status_code(), 404);
    assert_eq!(GypError::Other("o".to_string()).status_code(), 500);
    assert_eq!(GypError::SendFailed("m".to_string()).response().error, "m");
}

#[test]
fn asset_names_follow_stem_and_extension() {
    assert_eq!(asset_candidate("photo.png", 1), "photo-1.png");
    assert_eq!(asset_candidate("archive.tar.gz", 2), "archive.tar-2.gz");
    assert_eq!(asset_candidate("README", 3), "README-3");
    assert_eq!(asset_candidate(".bashrc", 1), ".bashrc-1");
    assert_eq!(asset_candidate("dir/file.txt", 1), "file-1.txt");
    assert_eq!(asset_candidate("..", 1), "..-1");
    assert_eq!(asset_candidate("a.", 1), "a-1.");
}

#[test]
fn sync_finish_plans_follow_the_outcome() {
    let done = plan_sync_finish(&Ok(Some("  done it  ".to_string())));
    assert_eq!(done.effort_summary, "done it");
    assert_eq!(done.effort_status, "done");
    assert_eq!(done.effort_note, "Project sync completed.\n\ndone it");
    assert_eq!((done.item_status.as_str(), done.item_summary.as_str()), ("done", "Project sync completed."));
    assert_eq!(done.item_details.as_deref(), Some("  done it  "));
    let quiet = plan_sync_finish(&Ok(None));
    assert_eq!(quiet.effort_summary, "Project sync completed.");
    assert_eq!(quiet.effort_note, "Project sync completed.");
    assert_eq!(quiet.item_details, None);
    let failed = plan_sync_finish(&Err("  bad ".to_string()));
    assert_eq!(failed.effort_summary, "  bad ");
    assert_eq!(failed.effort_status, "failed");
    assert_eq!(failed.effort_note, "Project sync failed.\n\nbad");
    assert_eq!(failed.item_details.as_deref(), Some("  bad "));
}

#[test]
fn local_engine_payload_escapes_as_serde_json_does() {
    let e = LocalShepherdEngine;
    for m in ["plain", "tab\there", "line\nbreak\r", "back\\slash \"q\"", "\u{1}\u{8}\u{c}\u{1f}\u{7f}", "é ✓ \u{2028}", ""] {
        let d = e.ingest_user_message("run", m, "now".to_string()).unwrap();
        let expected = format!("{{\"message\":{}}}", serde_json::to_string(m).unwrap());
        assert_eq!(d.payload_json, expected);
    }
}

#[test]
fn trimming_follows_std_white_space() {
    for c in ['\t', '\n', '\u{b}', '\u{c}', '\r', ' ', '\u{85}', '\u{a0}', '\u{1680}', '\u{2000}', '\u{200a}',
        '\u{2028}', '\u{2029}', '\u{202f}', '\u{205f}', '\u{3000}', '\u{200b}', '\u{180e}', 'x', '\u{8}', '\u{feff}']
    {
        let s = format!("{}a{}b{}", c, c, c);
        assert_eq!(hirsel::text::trim(&s), s.trim(), "char {:?}", c);
    }
}
