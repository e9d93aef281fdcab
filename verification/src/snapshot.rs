//! Handles for worker state kept across pause and resume: archive handles,
//! work directory and agent session snapshots, and the naming rules of the
//! archive strategies.

use vstd::prelude::*;
use crate::run_state::{clone_opt, opt_view};
use crate::text::{alphanumeric, char_is_alphanumeric, concat, concat3, contains_substr, has_substr,
    lowercase, push_char, to_chars, to_lower};

verus! {

/// Handle to an archived directory, kept to restore or delete it later.
#[derive(Debug)]
pub struct ArchiveHandle {
    /// The strategy that made the archive, such as `noop`.
    pub strategy_type: String,
    /// Where the archive is kept: a storage key or a local path.
    pub storage_id: String,
    /// The archive's size in bytes, when known.
    pub size_bytes: Option<u64>,
}

impl ArchiveHandle {
    /// A handle without a size.
    pub fn new(strategy_type: &str, storage_id: &str) -> (r: ArchiveHandle)
        ensures
            r.strategy_type@ == strategy_type@,
            r.storage_id@ == storage_id@,
            r.size_bytes is None,
    {
        ArchiveHandle { strategy_type: strategy_type.to_owned(), storage_id: storage_id.to_owned(), size_bytes: None }
    }

    /// A handle with the archive's size.
    pub fn with_size(strategy_type: &str, storage_id: &str, size_bytes: u64) -> (r: ArchiveHandle)
        ensures
            r.strategy_type@ == strategy_type@,
            r.storage_id@ == storage_id@,
            r.size_bytes == Some(size_bytes),
    {
        ArchiveHandle {
            strategy_type: strategy_type.to_owned(),
            storage_id: storage_id.to_owned(),
            size_bytes: Some(size_bytes),
        }
    }
}

impl Clone for ArchiveHandle {
    fn clone(&self) -> (r: Self)
        ensures
            r.strategy_type@ == self.strategy_type@,
            r.storage_id@ == self.storage_id@,
            r.size_bytes == self.size_bytes,
    {
        ArchiveHandle {
            strategy_type: self.strategy_type.clone(),
            storage_id: self.storage_id.clone(),
            size_bytes: self.size_bytes,
        }
    }
}

/// Snapshot of a worker's work directory.
#[derive(Debug)]
pub struct WorkDirSnapshot {
    /// The strategy that made the snapshot.
    pub strategy_type: String,
    /// Where the snapshot is kept.
    pub storage_id: String,
    /// The snapshot's size in bytes, when known.
    pub size_bytes: Option<u64>,
}

impl WorkDirSnapshot {
    /// A snapshot without a size.
    pub fn new(strategy_type: &str, storage_id: &str) -> (r: WorkDirSnapshot)
        ensures
            r.strategy_type@ == strategy_type@,
            r.storage_id@ == storage_id@,
            r.size_bytes is None,
    {
        WorkDirSnapshot { strategy_type: strategy_type.to_owned(), storage_id: storage_id.to_owned(), size_bytes: None }
    }

    /// A snapshot with its size.
    pub fn with_size(strategy_type: &str, storage_id: &str, size_bytes: u64) -> (r: WorkDirSnapshot)
        ensures
            r.strategy_type@ == strategy_type@,
            r.storage_id@ == storage_id@,
            r.size_bytes == Some(size_bytes),
    {
        WorkDirSnapshot {
            strategy_type: strategy_type.to_owned(),
            storage_id: storage_id.to_owned(),
            size_bytes: Some(size_bytes),
        }
    }
}

/// Snapshot of an agent's session state, such as its session directory.
#[derive(Debug)]
pub struct AgentSnapshot {
    /// The kind of agent, such as `codex`.
    pub agent_type: String,
    /// The session to resume.
    pub session_id: String,
    /// Where the snapshot is kept.
    pub storage_id: String,
}

impl AgentSnapshot {
    pub fn new(agent_type: &str, session_id: &str, storage_id: &str) -> (r: AgentSnapshot)
        ensures
            r.agent_type@ == agent_type@,
            r.session_id@ == session_id@,
            r.storage_id@ == storage_id@,
    {
        AgentSnapshot {
            agent_type: agent_type.to_owned(),
            session_id: session_id.to_owned(),
            storage_id: storage_id.to_owned(),
        }
    }
}

/// All the state of a worker that must survive a pause: an optional work
/// directory snapshot and an optional agent session snapshot.
#[derive(Debug)]
pub struct WorkerStateHandle {
    pub work_dir: Option<WorkDirSnapshot>,
    pub agent_session: Option<AgentSnapshot>,
}

impl WorkerStateHandle {
    /// A handle with nothing to restore.
    pub fn new() -> (r: WorkerStateHandle)
        ensures
            r.work_dir is None,
            r.agent_session is None,
    {
        WorkerStateHandle { work_dir: None, agent_session: None }
    }

    /// A handle with only a work directory snapshot.
    pub fn with_work_dir(snapshot: WorkDirSnapshot) -> (r: WorkerStateHandle)
        ensures
            r.work_dir == Some(snapshot),
            r.agent_session is None,
    {
        WorkerStateHandle { work_dir: Some(snapshot), agent_session: None }
    }

    /// A handle with only an agent session snapshot.
    pub fn with_agent_session(snapshot: AgentSnapshot) -> (r: WorkerStateHandle)
        ensures
            r.work_dir is None,
            r.agent_session == Some(snapshot),
    {
        WorkerStateHandle { work_dir: None, agent_session: Some(snapshot) }
    }

    /// Whether the handle holds anything to restore.
    pub fn has_state(&self) -> (r: bool)
        ensures
            r == (self.work_dir is Some || self.agent_session is Some),
    {
        self.work_dir.is_some() || self.agent_session.is_some()
    }
}

impl Default for WorkerStateHandle {
    fn default() -> (r: Self)
        ensures
            r.work_dir is None,
            r.agent_session is None,
    {
        WorkerStateHandle::new()
    }
}

/// Why a snapshot operation failed.
#[derive(Debug)]
pub enum SnapshotError {
    /// The storage backend failed.
    Storage(String),
    /// The object store failed.
    S3(String),
    /// The configuration does not allow the operation.
    Config(String),
    /// No snapshot is kept under the id.
    NotFound(String),
    /// The work directory does not exist.
    WorkDirNotFound(String),
}

/// The strategy for hosts where directories stay on disk: nothing is copied,
/// and an archive handle names the directory itself.
#[derive(Debug)]
pub struct NoOpArchiveStrategy;

impl NoOpArchiveStrategy {
    pub fn new() -> (r: NoOpArchiveStrategy) {
        NoOpArchiveStrategy
    }

    /// The strategy's name.
    pub fn strategy_type(&self) -> (r: &'static str)
        ensures
            r@ == "noop"@,
    {
        "noop"
    }

    /// Whether archiving with this strategy does nothing: it does.
    pub fn is_noop(&self) -> (r: bool)
        ensures
            r,
    {
        true
    }

    /// The handle that archiving the directory `source_dir` yields: the
    /// directory itself, with no size.
    pub fn archive_handle(&self, source_dir: &str) -> (r: ArchiveHandle)
        ensures
            r.strategy_type@ == "noop"@,
            r.storage_id@ == source_dir@,
            r.size_bytes is None,
    {
        ArchiveHandle::new(self.strategy_type(), source_dir)
    }
}

impl Default for NoOpArchiveStrategy {
    fn default() -> (r: Self) {
        NoOpArchiveStrategy
    }
}

/// The strategy for hosts whose disks persist across restarts.
#[derive(Debug)]
pub struct PersistentDiskStrategy;

impl PersistentDiskStrategy {
    pub fn new() -> (r: PersistentDiskStrategy) {
        PersistentDiskStrategy
    }

    /// The strategy's name.
    pub fn strategy_type(&self) -> (r: &'static str)
        ensures
            r@ == "persistent_disk"@,
    {
        "persistent_disk"
    }
}

/// What a snapshot of a worker's directory leaves to restore it by: the
/// strategy that took it, the id it is kept under, when it was taken and
/// its size when known.
#[derive(Debug)]
pub struct SnapshotHandle {
    pub strategy_type: String,
    pub snapshot_id: String,
    pub created_at: String,
    pub size_bytes: Option<u64>,
}

impl PersistentDiskStrategy {
    /// A snapshot of the work directory `work_dir` at `now`, given whether
    /// the directory exists: the files stay where they are, so the handle
    /// names the directory itself, with no size; a missing directory is
    /// refused.
    pub fn snapshot(&self, work_dir: &str, dir_exists: bool, now: &str) -> (r: Result<SnapshotHandle, SnapshotError>)
        ensures
            dir_exists ==> (r matches Ok(h) && h.strategy_type@ == "persistent_disk"@ && h.snapshot_id@ == work_dir@
                && h.created_at@ == now@ && h.size_bytes is None),
            !dir_exists ==> (r matches Err(SnapshotError::WorkDirNotFound(d)) && d@ == work_dir@),
    {
        if !dir_exists {
            return Err(SnapshotError::WorkDirNotFound(work_dir.to_owned()));
        }
        Ok(SnapshotHandle {
            strategy_type: self.strategy_type().to_owned(),
            snapshot_id: work_dir.to_owned(),
            created_at: now.to_owned(),
            size_bytes: None,
        })
    }

    /// Restoring a snapshot into `work_dir`, given whether the directory
    /// exists: nothing to copy back, so it succeeds when the directory is
    /// there and is refused otherwise.
    pub fn restore(&self, _handle: &SnapshotHandle, work_dir: &str, dir_exists: bool) -> (r: Result<(), SnapshotError>)
        ensures
            dir_exists ==> r is Ok,
            !dir_exists ==> (r matches Err(SnapshotError::WorkDirNotFound(d)) && d@ == work_dir@),
    {
        if !dir_exists {
            return Err(SnapshotError::WorkDirNotFound(work_dir.to_owned()));
        }
        Ok(())
    }

    /// Deleting a snapshot: nothing is kept apart from the directory, which
    /// stays, so it always succeeds.
    pub fn delete(&self, _handle: &SnapshotHandle) -> (r: Result<(), SnapshotError>)
        ensures
            r is Ok,
    {
        Ok(())
    }
}

impl Default for PersistentDiskStrategy {
    fn default() -> (r: Self) {
        PersistentDiskStrategy::new()
    }
}

/// `base` joined with `part` as a path: an absolute `part` replaces `base`;
/// otherwise a `/` goes between them unless `base` is empty or ends in one.
pub open spec fn path_joined(base: Seq<char>, part: Seq<char>) -> Seq<char> {
    if part.len() > 0 && part[0] == '/' {
        part
    } else if base.len() > 0 && base.last() != '/' {
        base + seq!['/'] + part
    } else {
        base + part
    }
}

/// Joins `part` onto the path `base`.
pub fn path_join(base: &str, part: &str) -> (r: String)
    ensures
        r@ == path_joined(base@, part@),
{
    let b = to_chars(base);
    let p = to_chars(part);
    if p.len() > 0 && p[0] == '/' {
        return part.to_owned();
    }
    if b.len() > 0 && b[b.len() - 1] != '/' {
        proof {
            reveal_strlit("/");
            assert("/"@ =~= seq!['/']);
        }
        concat3(base, "/", part)
    } else {
        concat(base, part)
    }
}

/// Where the session directory of worker `worker_name` lives on the host,
/// under the run directory `run_dir`.
pub fn host_session_path(run_dir: &str, worker_name: &str) -> (r: String)
    ensures
        r@ == path_joined(path_joined(run_dir@, "agent-sessions"@), worker_name@),
{
    let dir = path_join(run_dir, "agent-sessions");
    path_join(dir.as_str(), worker_name)
}

/// The character a sprite name keeps for `c`: letters, digits and `-`
/// stay, anything else becomes `-`.
pub open spec fn sprite_char(c: char) -> char {
    if alphanumeric(c) || c == '-' {
        c
    } else {
        '-'
    }
}

/// The sprite name of a worker: `hirsel-{run}-{worker}` in lowercase, with
/// every character other than letters, digits and `-` made a `-`.
pub open spec fn sprite_name_of(run_name: Seq<char>, worker_name: Seq<char>) -> Seq<char> {
    lowercase("hirsel-"@ + run_name + "-"@ + worker_name).map_values(|c: char| sprite_char(c))
}

/// `lowered` with every character other than letters, digits and `-` made
/// a `-`.
pub fn sanitize_sprite_name(lowered: &str) -> (r: String)
    ensures
        r@ == lowered@.map_values(|c: char| sprite_char(c)),
{
    let cs = to_chars(lowered);
    let mut out = String::new();
    let mut i: usize = 0;
    while i < cs.len()
        invariant
            i <= cs.len(),
            cs@ == lowered@,
            out@ == lowered@.take(i as int).map_values(|c: char| sprite_char(c)),
        decreases cs.len() - i,
    {
        let c = cs[i];
        let keep = char_is_alphanumeric(c) || c == '-';
        let ghost before = out@;
        if keep {
            push_char(&mut out, c);
        } else {
            push_char(&mut out, '-');
        }
        assert(out@ =~= lowered@.take(i as int + 1).map_values(|c: char| sprite_char(c))) by {
            assert(lowered@.take(i as int + 1) =~= lowered@.take(i as int).push(c));
        }
        i = i + 1;
    }
    assert(lowered@.take(cs.len() as int) =~= lowered@);
    out
}

/// The strategy for sprite hosts, which keep state in the host's own
/// checkpoints. The host client stays with the caller.
#[derive(Debug)]
pub struct SpriteCheckpointStrategy {
    /// What checkpoint comments start with.
    pub comment_prefix: String,
}

/// The first position at or after `from` where `s` holds `c`, or the length
/// of `s` when there is none.
pub open spec fn find_from(s: Seq<char>, c: char, from: int) -> int
    decreases s.len() - from,
{
    if from < 0 || from >= s.len() {
        s.len() as int
    } else if s[from] == c {
        from
    } else {
        find_from(s, c, from + 1)
    }
}

/// The message refusing an archive key that does not name a run and a worker.
pub open spec fn bad_key_message(key: Seq<char>) -> Seq<char> {
    "Invalid key format for Sprite checkpoint: '"@ + key + "' (expected 'run_name/worker_name/...')"@
}

/// `s` with every `/` made a `-`.
pub open spec fn slashes_to_dashes(s: Seq<char>) -> Seq<char> {
    s.map_values(|c: char| if c == '/' { '-' } else { c })
}

/// The first position at or after `from` where `s` holds `c`, or the length
/// of `s`.
pub fn find_char(s: &Vec<char>, c: char, from: usize) -> (r: usize)
    requires
        from <= s.len(),
    ensures
        r == find_from(s@, c, from as int),
        from <= r <= s.len(),
{
    let mut i: usize = from;
    while i < s.len() && s[i] != c
        invariant
            from <= i <= s.len(),
            find_from(s@, c, from as int) == find_from(s@, c, i as int),
        decreases s.len() - i,
    {
        i = i + 1;
    }
    i
}

impl SpriteCheckpointStrategy {
    /// A strategy whose checkpoint comments start with `comment_prefix`,
    /// `hirsel-archive` by default.
    pub fn new(comment_prefix: Option<String>) -> (r: SpriteCheckpointStrategy)
        ensures
            r.comment_prefix@ == match comment_prefix {
                Some(p) => p@,
                None => "hirsel-archive"@,
            },
    {
        match comment_prefix {
            Some(p) => SpriteCheckpointStrategy { comment_prefix: p },
            None => SpriteCheckpointStrategy { comment_prefix: "hirsel-archive".to_owned() },
        }
    }

    /// The strategy's name.
    pub fn strategy_type(&self) -> (r: &'static str)
        ensures
            r@ == "sprite_checkpoint"@,
    {
        "sprite_checkpoint"
    }

    /// What checkpointing the archive `key` targets: the sprite of the run
    /// and worker that the key's first two `/`-separated parts name, and the
    /// checkpoint's comment, `{prefix}-{key}` with `/` made `-`.
    pub fn checkpoint_target(&self, key: &str) -> (r: Result<(String, String), SnapshotError>)
        ensures
            ({
                let k = key@;
                let f = find_from(k, '/', 0);
                let g = find_from(k, '/', f + 1);
                &&& f == k.len() ==> (r matches Err(SnapshotError::Config(m)) && m@ == bad_key_message(k))
                &&& f < k.len() ==> (r matches Ok((name, comment))
                    && name@ == sprite_name_of(k.take(f), k.subrange(f + 1, g))
                    && comment@ == self.comment_prefix@ + "-"@ + slashes_to_dashes(k))
            }),
    {
        let cs = to_chars(key);
        let f = find_char(&cs, '/', 0);
        if f == cs.len() {
            let msg = concat3("Invalid key format for Sprite checkpoint: '", key, "' (expected 'run_name/worker_name/...')");
            return Err(SnapshotError::Config(msg));
        }
        let g = find_char(&cs, '/', f + 1);
        let run = crate::text::string_from_chars(&cs, 0, f);
        let worker = crate::text::string_from_chars(&cs, f + 1, g);
        assert(cs@.subrange(0, f as int) =~= key@.take(f as int));
        let name = Self::sprite_name(run.as_str(), worker.as_str());
        let mut dashed = String::new();
        let mut i: usize = 0;
        while i < cs.len()
            invariant
                i <= cs.len(),
                cs@ == key@,
                dashed@ == slashes_to_dashes(key@.take(i as int)),
            decreases cs.len() - i,
        {
            let ghost before = dashed@;
            if cs[i] == '/' {
                push_char(&mut dashed, '-');
            } else {
                push_char(&mut dashed, cs[i]);
            }
            assert(key@.take(i as int + 1) =~= key@.take(i as int).push(cs@[i as int]));
            assert(dashed@ =~= slashes_to_dashes(key@.take(i as int + 1)));
            i = i + 1;
        }
        assert(key@.take(cs.len() as int) =~= key@);
        let comment = concat3(self.comment_prefix.as_str(), "-", dashed.as_str());
        Ok((name, comment))
    }

    /// The sprite name of the worker `worker_name` of the run `run_name`.
    pub fn sprite_name(run_name: &str, worker_name: &str) -> (r: String)
        ensures
            r@ == sprite_name_of(run_name@, worker_name@),
    {
        let head = concat3("hirsel-", run_name, "-");
        let full = concat(head.as_str(), worker_name);
        let lowered = to_lower(full.as_str());
        sanitize_sprite_name(lowered.as_str())
    }
}

/// The object store strategy's settings: the bucket and the key prefix. The
/// store client stays with the caller.
#[derive(Debug)]
pub struct S3SnapshotStrategy {
    pub bucket: String,
    pub prefix: String,
}

/// The key under which a snapshot of a worker is stored:
/// `{prefix}/{run}/{worker}/{timestamp}.tar.gz`.
pub open spec fn snapshot_key(prefix: Seq<char>, run_name: Seq<char>, worker_name: Seq<char>, timestamp: Seq<char>) -> Seq<char> {
    prefix + "/"@ + run_name + "/"@ + worker_name + "/"@ + timestamp + ".tar.gz"@
}

/// The snapshot error for a failed fetch of the snapshot `snapshot_id`,
/// given the store's message: a missing object is `NotFound`, anything else
/// a storage failure carrying the message.
pub open spec fn fetch_error_is(msg: Seq<char>, snapshot_id: Seq<char>, e: SnapshotError) -> bool {
    if has_substr(msg, "NoSuchKey"@) || has_substr(msg, "NotFound"@) {
        e matches SnapshotError::NotFound(m) && m@ == snapshot_id
    } else {
        e matches SnapshotError::Storage(m) && m@ == msg
    }
}

impl S3SnapshotStrategy {
    /// The settings for the bucket `bucket`, with keys under `prefix`
    /// (`snapshots` by default). A bucket name is required.
    pub fn new(bucket: &str, prefix: Option<String>) -> (r: Result<S3SnapshotStrategy, SnapshotError>)
        ensures
            bucket@.len() == 0 ==> (r matches Err(SnapshotError::Config(m)) && m@ == "S3 bucket name is required"@),
            bucket@.len() > 0 ==> (r matches Ok(s) && s.bucket@ == bucket@ && s.prefix@ == match prefix {
                Some(p) => p@,
                None => "snapshots"@,
            }),
    {
        if bucket.unicode_len() == 0 {
            return Err(SnapshotError::Config("S3 bucket name is required".to_owned()));
        }
        let prefix = match prefix {
            Some(p) => p,
            None => "snapshots".to_owned(),
        };
        Ok(S3SnapshotStrategy { bucket: bucket.to_owned(), prefix })
    }

    /// The strategy's name.
    pub fn strategy_type(&self) -> (r: &'static str)
        ensures
            r@ == "s3"@,
    {
        "s3"
    }

    /// The key of a snapshot of the worker `worker_name` of the run
    /// `run_name` taken at `timestamp`.
    pub fn build_key(&self, run_name: &str, worker_name: &str, timestamp: &str) -> (r: String)
        ensures
            r@ == snapshot_key(self.prefix@, run_name@, worker_name@, timestamp@),
    {
        let a = concat3(self.prefix.as_str(), "/", run_name);
        let b = concat3(a.as_str(), "/", worker_name);
        let c = concat3(b.as_str(), "/", timestamp);
        concat(c.as_str(), ".tar.gz")
    }

    /// The error for a failed fetch of the snapshot `snapshot_id`, from the
    /// store's message `msg`.
    pub fn fetch_error(msg: &str, snapshot_id: &str) -> (r: SnapshotError)
        ensures
            fetch_error_is(msg@, snapshot_id@, r),
    {
        if contains_substr(msg, "NoSuchKey") || contains_substr(msg, "NotFound") {
            SnapshotError::NotFound(snapshot_id.to_owned())
        } else {
            SnapshotError::Storage(msg.to_owned())
        }
    }
}

} // verus!
