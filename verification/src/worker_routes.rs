//! The worker API's request and response shapes, and the decisions its
//! handlers make between reading and writing the run state.

use vstd::prelude::*;
use crate::run_state::{clone_opt, opt_view};
use crate::state_types::{Status, Worker, WorkerStatus, WorkerUpdate};

verus! {

/// The answer of an operation that only succeeds or fails.
#[derive(Debug)]
pub struct SuccessResponse {
    pub success: bool,
    pub error: Option<String>,
}

impl SuccessResponse {
    /// Success, with no error.
    pub fn ok() -> (r: SuccessResponse)
        ensures
            r.success,
            r.error is None,
    {
        SuccessResponse { success: true, error: None }
    }

    /// Failure, with the error `msg`.
    pub fn err(msg: &str) -> (r: SuccessResponse)
        ensures
            !r.success,
            opt_view(r.error) == Some(msg@),
    {
        SuccessResponse { success: false, error: Some(msg.to_owned()) }
    }
}

/// The run's workers.
#[derive(Debug)]
pub struct WorkersResponse {
    pub workers: Vec<Worker>,
}

/// One worker, if it exists.
#[derive(Debug)]
pub struct WorkerResponse {
    pub worker: Option<Worker>,
}

/// Whether every worker is done.
#[derive(Debug)]
pub struct AllDoneResponse {
    pub all_done: bool,
}

/// The run status a heartbeat answers with.
#[derive(Debug)]
pub struct HeartbeatResponse {
    pub status: String,
}

impl HeartbeatResponse {
    /// The answer to a heartbeat while the run has status `status`.
    pub fn for_status(status: Status) -> (r: HeartbeatResponse)
        ensures
            r.status@ == status.name(),
    {
        HeartbeatResponse { status: status.as_str().to_owned() }
    }
}

/// A worker's report of changed fields; each field that is `Some` is written.
#[derive(Debug)]
pub struct UpdateWorkerRequest {
    pub pid: Option<i64>,
    pub session_id: Option<String>,
    pub status: Option<String>,
    pub waiting_thread: Option<String>,
    pub needs_restart: Option<bool>,
    pub last_heartbeat: Option<String>,
}

/// The status a request names, if it names one of the statuses a worker may
/// report.
pub open spec fn requested_status(status: Option<String>) -> Option<WorkerStatus> {
    match status {
        Some(s) => WorkerStatus::parse(s@),
        None => None,
    }
}

impl UpdateWorkerRequest {
    /// The status the request names: `working`, `awaiting`, `paused` or
    /// `error`; anything else names none.
    pub fn parse_status(&self) -> (r: Option<WorkerStatus>)
        ensures
            r == requested_status(self.status),
    {
        match &self.status {
            Some(s) => WorkerStatus::from_str(s.as_str()),
            None => None,
        }
    }

    /// The state update the request asks for.
    pub fn to_worker_update(&self) -> (r: WorkerUpdate)
        ensures
            r.pid == self.pid,
            opt_view(r.session_id) == opt_view(self.session_id),
            r.status == requested_status(self.status),
            opt_view(r.waiting_thread) == opt_view(self.waiting_thread),
            r.needs_restart == self.needs_restart,
            opt_view(r.last_heartbeat) == opt_view(self.last_heartbeat),
            r.runner_id is None,
            r.runner_type is None,
            r.hitl_waiting is None,
            r.state_handle is None,
            r.assigned_task_id is None,
            r.last_task_id is None,
    {
        let mut u = WorkerUpdate::default();
        u.pid = self.pid;
        u.session_id = clone_opt(&self.session_id);
        u.status = self.parse_status();
        u.waiting_thread = clone_opt(&self.waiting_thread);
        u.needs_restart = self.needs_restart;
        u.last_heartbeat = clone_opt(&self.last_heartbeat);
        u
    }
}

/// A request to add a worker.
#[derive(Debug)]
pub struct CreateWorkerRequest {
    pub name: String,
    pub work_dir: String,
    pub location: String,
}

/// A request that carries a reason, such as pausing every worker.
#[derive(Debug)]
pub struct ReasonRequest {
    pub reason: String,
}

/// The update a heartbeat at `now` writes: the heartbeat time alone.
pub fn heartbeat_update(now: String) -> (r: WorkerUpdate)
    ensures
        opt_view(r.last_heartbeat) == Some(now@),
        r.pid is None,
        r.runner_id is None,
        r.runner_type is None,
        r.session_id is None,
        r.status is None,
        r.waiting_thread is None,
        r.needs_restart is None,
        r.hitl_waiting is None,
        r.state_handle is None,
        r.assigned_task_id is None,
        r.last_task_id is None,
{
    let mut u = WorkerUpdate::default();
    u.last_heartbeat = Some(now);
    u
}

/// The status change that a worker update reports to the lifecycle manager:
/// only a change to `Awaiting` from another status the worker had.
pub open spec fn awaiting_change(old: Option<WorkerStatus>, new: Option<WorkerStatus>) -> Option<(WorkerStatus, WorkerStatus)> {
    match (old, new) {
        (Some(o), Some(n)) => if o != n && n == WorkerStatus::Awaiting {
            Some((o, n))
        } else {
            None
        },
        _ => None,
    }
}

/// The status change, if any, that an update from `old` to `new` reports.
pub fn status_change_event(old: Option<WorkerStatus>, new: Option<WorkerStatus>) -> (r: Option<(WorkerStatus, WorkerStatus)>)
    ensures
        r == awaiting_change(old, new),
{
    match (old, new) {
        (Some(o), Some(n)) => {
            if o != n && n == WorkerStatus::Awaiting {
                Some((o, n))
            } else {
                None
            }
        },
        _ => None,
    }
}

} // verus!
