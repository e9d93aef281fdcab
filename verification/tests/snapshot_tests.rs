use hirsel::snapshot::{
    host_session_path, path_join, sanitize_sprite_name, AgentSnapshot, ArchiveHandle,
    NoOpArchiveStrategy, PersistentDiskStrategy, S3SnapshotStrategy, SnapshotError,
    SpriteCheckpointStrategy, WorkDirSnapshot, WorkerStateHandle,
};

#[test]
fn test_host_session_path() {
    let path = host_session_path("/runs/my-run", "worker-1");
    assert_eq!(path, "/runs/my-run/agent-sessions/worker-1");
}

#[test]
fn test_is_noop() {
    let strategy = NoOpArchiveStrategy::new();
    assert!(strategy.is_noop());
}

#[test]
fn test_build_key() {
    let strategy = S3SnapshotStrategy::new("bucket", None).unwrap();
    let prefix = "snapshots";
    let run_name = "my-run";
    let worker_name = "worker1";
    let timestamp = "2024-01-15T10-30-00Z";

    assert_eq!(strategy.prefix, prefix);
    let key = strategy.build_key(run_name, worker_name, timestamp);
    assert_eq!(key, "snapshots/my-run/worker1/2024-01-15T10-30-00Z.tar.gz");
}

#[test]
fn test_sprite_name_generation() {
    assert_eq!(
        SpriteCheckpointStrategy::sprite_name("my-run", "achilles"),
        "hirsel-my-run-achilles"
    );

    assert_eq!(
        SpriteCheckpointStrategy::sprite_name("Test Run", "Worker 1"),
        "hirsel-test-run-worker-1"
    );
}

#[test]
fn sprite_name_replaces_punctuation() {
    assert_eq!(SpriteCheckpointStrategy::sprite_name("a_b", "c.d"), "hirsel-a-b-c-d");
    assert_eq!(sanitize_sprite_name("x y/z"), "x-y-z");
}

#[test]
fn archive_handles_keep_their_fields() {
    let handle = ArchiveHandle::with_size("s3", "snapshots/my-run/worker1/workdir.tar.gz", 1024);
    assert_eq!(handle.strategy_type, "s3");
    assert_eq!(handle.storage_id, "snapshots/my-run/worker1/workdir.tar.gz");
    assert_eq!(handle.size_bytes, Some(1024));

    let plain = ArchiveHandle::new("noop", "/path/to/dir");
    assert!(plain.size_bytes.is_none());
}

#[test]
fn work_dir_and_agent_snapshots() {
    let snap = WorkDirSnapshot::with_size("s3", "archives/my-run/worker1/workdir.tar.gz", 1024 * 1024);
    assert_eq!(snap.size_bytes, Some(1048576));
    let agent = AgentSnapshot::new("codex", "session-123", "s3://bucket/key");
    assert_eq!(agent.agent_type, "codex");
    assert_eq!(agent.session_id, "session-123");
    assert_eq!(agent.storage_id, "s3://bucket/key");
}

#[test]
fn worker_state_handle_reports_state() {
    assert!(!WorkerStateHandle::new().has_state());
    let h = WorkerStateHandle::with_work_dir(WorkDirSnapshot::new("noop", "/path/to/dir"));
    assert!(h.has_state());
    assert!(h.work_dir.is_some());
    assert!(h.agent_session.is_none());
    let a = WorkerStateHandle::with_agent_session(AgentSnapshot::new("codex", "s", "k"));
    assert!(a.has_state());
    assert!(a.work_dir.is_none());
}

#[test]
fn noop_archive_handle_names_the_directory() {
    let strategy = NoOpArchiveStrategy::new();
    let handle = strategy.archive_handle("/nonexistent/path");
    assert_eq!(handle.strategy_type, "noop");
    assert_eq!(handle.storage_id, "/nonexistent/path");
    assert!(handle.size_bytes.is_none());
    assert_eq!(strategy.strategy_type(), "noop");
    assert_eq!(PersistentDiskStrategy::new().strategy_type(), "persistent_disk");
}

#[test]
fn path_join_follows_path_rules() {
    assert_eq!(path_join("/runs/", "a"), "/runs/a");
    assert_eq!(path_join("", "a"), "a");
    assert_eq!(path_join("/runs", "/abs"), "/abs");
    assert_eq!(host_session_path("/runs/x/", "w"), "/runs/x/agent-sessions/w");
}

#[test]
fn checkpoint_target_reads_run_and_worker() {
    let s = SpriteCheckpointStrategy::new(None);
    let (name, comment) = s.checkpoint_target("My Run/worker1/workdir").unwrap();
    assert_eq!(name, "hirsel-my-run-worker1");
    assert_eq!(comment, "hirsel-archive-My Run-worker1-workdir");
    let (name2, _) = s.checkpoint_target("run/").unwrap();
    assert_eq!(name2, "hirsel-run-");
    match s.checkpoint_target("no-slash") {
        Err(SnapshotError::Config(m)) => assert_eq!(
            m,
            "Invalid key format for Sprite checkpoint: 'no-slash' (expected 'run_name/worker_name/...')"
        ),
        other => panic!("unexpected {:?}", other),
    }
    assert_eq!(s.strategy_type(), "sprite_checkpoint");
}

#[test]
fn s3_settings_need_a_bucket() {
    match S3SnapshotStrategy::new("", None) {
        Err(SnapshotError::Config(m)) => assert_eq!(m, "S3 bucket name is required"),
        other => panic!("unexpected {:?}", other),
    }
    let s = S3SnapshotStrategy::new("b", Some("custom".to_string())).unwrap();
    assert_eq!(s.build_key("r", "w", "t"), "custom/r/w/t.tar.gz");
    assert_eq!(s.strategy_type(), "s3");
}

#[test]
fn fetch_errors_are_classified() {
    match S3SnapshotStrategy::fetch_error("service error: NoSuchKey", "k1") {
        SnapshotError::NotFound(id) => assert_eq!(id, "k1"),
        other => panic!("unexpected {:?}", other),
    }
    match S3SnapshotStrategy::fetch_error("timeout", "k1") {
        SnapshotError::Storage(m) => assert_eq!(m, "timeout"),
        other => panic!("unexpected {:?}", other),
    }
}


#[test]
fn test_persistent_disk_snapshot() {
    let work_dir = "/tmp/hirsel-work/worker1";
    let strategy = PersistentDiskStrategy::new();
    let handle = strategy.snapshot(work_dir, true, "2024-01-01T00:00:00+00:00").unwrap();
    assert_eq!(handle.strategy_type, "persistent_disk");
    assert_eq!(handle.snapshot_id, work_dir);
    assert!(handle.size_bytes.is_none());
}

#[test]
fn test_persistent_disk_restore() {
    let work_dir = "/tmp/hirsel-work/worker1";
    let strategy = PersistentDiskStrategy::new();
    let handle = strategy.snapshot(work_dir, true, "t0").unwrap();
    strategy.restore(&handle, work_dir, true).unwrap();
    assert!(matches!(strategy.restore(&handle, work_dir, false), Err(SnapshotError::WorkDirNotFound(_))));
}

#[test]
fn test_persistent_disk_missing_dir() {
    let strategy = PersistentDiskStrategy::new();
    let result = strategy.snapshot("/nonexistent/path", false, "t0");
    assert!(result.is_err());
    match result.unwrap_err() {
        SnapshotError::WorkDirNotFound(d) => assert_eq!(d, "/nonexistent/path"),
        other => panic!("unexpected {:?}", other),
    }
}

#[test]
fn test_persistent_disk_delete() {
    let strategy = PersistentDiskStrategy::new();
    let handle = strategy.snapshot("/tmp/hirsel-work/worker1", true, "t0").unwrap();
    strategy.delete(&handle).unwrap();
}
