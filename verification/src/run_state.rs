//! The run database of a single run: its status, tasks, workers, evals,
//! messages and history log, held as plain values. Operations on it live in
//! `task_board` and `run_workers`; the storage layer loads and saves it.

use vstd::prelude::*;
use crate::text::str_eq;
use crate::run_journal::{JournalView, RunJournal};
use crate::run_settings::{settings_view, RunSettings, SettingsView};

verus! {

/// Run status: the overall state of a run.
#[derive(Debug, Clone, Copy, PartialEq, Eq, Structural)]
pub enum Status {
    Idle,
    Working,
    /// Manually paused by the user.
    Paused,
    /// Paused automatically: the iteration limit was exceeded.
    Runaway,
    /// Paused automatically: the time limit was exceeded.
    TimedOut,
    Eval,
    /// The maximum number of eval attempts was reached.
    EvalFailed,
    Waiting,
    Done,
    Delivered,
    /// Work merged to staging or main.
    Merged,
}

impl Status {
    /// The name under which the value is stored.
    pub open spec fn name(self) -> Seq<char> {
        match self {
            Status::Idle => "idle"@,
            Status::Working => "working"@,
            Status::Paused => "paused"@,
            Status::Runaway => "runaway"@,
            Status::TimedOut => "timed_out"@,
            Status::Eval => "eval"@,
            Status::EvalFailed => "eval_failed"@,
            Status::Waiting => "waiting"@,
            Status::Done => "done"@,
            Status::Delivered => "delivered"@,
            Status::Merged => "merged"@,
        }
    }

    /// The value stored under the name `s`, if any.
    pub open spec fn parse(s: Seq<char>) -> Option<Status> {
        if s == "idle"@ {
            Some(Status::Idle)
        } else if s == "working"@ {
            Some(Status::Working)
        } else if s == "paused"@ {
            Some(Status::Paused)
        } else if s == "runaway"@ {
            Some(Status::Runaway)
        } else if s == "timed_out"@ {
            Some(Status::TimedOut)
        } else if s == "eval"@ {
            Some(Status::Eval)
        } else if s == "eval_failed"@ {
            Some(Status::EvalFailed)
        } else if s == "waiting"@ {
            Some(Status::Waiting)
        } else if s == "done"@ {
            Some(Status::Done)
        } else if s == "delivered"@ {
            Some(Status::Delivered)
        } else if s == "merged"@ {
            Some(Status::Merged)
        } else {
            None
        }
    }

    pub fn as_str(&self) -> (r: &'static str)
        ensures
            r@ == self.name(),
    {
        match self {
            Status::Idle => "idle",
            Status::Working => "working",
            Status::Paused => "paused",
            Status::Runaway => "runaway",
            Status::TimedOut => "timed_out",
            Status::Eval => "eval",
            Status::EvalFailed => "eval_failed",
            Status::Waiting => "waiting",
            Status::Done => "done",
            Status::Delivered => "delivered",
            Status::Merged => "merged",
        }
    }

    pub fn from_str(s: &str) -> (r: Option<Status>)
        ensures
            r == Status::parse(s@),
    {
        if str_eq(s, "idle") {
            Some(Status::Idle)
        } else if str_eq(s, "working") {
            Some(Status::Working)
        } else if str_eq(s, "paused") {
            Some(Status::Paused)
        } else if str_eq(s, "runaway") {
            Some(Status::Runaway)
        } else if str_eq(s, "timed_out") {
            Some(Status::TimedOut)
        } else if str_eq(s, "eval") {
            Some(Status::Eval)
        } else if str_eq(s, "eval_failed") {
            Some(Status::EvalFailed)
        } else if str_eq(s, "waiting") {
            Some(Status::Waiting)
        } else if str_eq(s, "done") {
            Some(Status::Done)
        } else if str_eq(s, "delivered") {
            Some(Status::Delivered)
        } else if str_eq(s, "merged") {
            Some(Status::Merged)
        } else {
            None
        }
    }
}

/// Reading back the stored name of any `Status` gives the same value.
pub proof fn lemma_status_name_round_trip(x: Status)
    ensures
        Status::parse(x.name()) == Some(x),
{
    reveal_strlit("idle");
    reveal_strlit("working");
    reveal_strlit("paused");
    reveal_strlit("runaway");
    reveal_strlit("timed_out");
    reveal_strlit("eval");
    reveal_strlit("eval_failed");
    reveal_strlit("waiting");
    reveal_strlit("done");
    reveal_strlit("delivered");
    reveal_strlit("merged");
    assert("idle"@ =~= seq!['i', 'd', 'l', 'e']);
    assert("working"@ =~= seq!['w', 'o', 'r', 'k', 'i', 'n', 'g']);
    assert("paused"@ =~= seq!['p', 'a', 'u', 's', 'e', 'd']);
    assert("runaway"@ =~= seq!['r', 'u', 'n', 'a', 'w', 'a', 'y']);
    assert("timed_out"@ =~= seq!['t', 'i', 'm', 'e', 'd', '_', 'o', 'u', 't']);
    assert("eval"@ =~= seq!['e', 'v', 'a', 'l']);
    assert("eval_failed"@ =~= seq!['e', 'v', 'a', 'l', '_', 'f', 'a', 'i', 'l', 'e', 'd']);
    assert("waiting"@ =~= seq!['w', 'a', 'i', 't', 'i', 'n', 'g']);
    assert("done"@ =~= seq!['d', 'o', 'n', 'e']);
    assert("delivered"@ =~= seq!['d', 'e', 'l', 'i', 'v', 'e', 'r', 'e', 'd']);
    assert("merged"@ =~= seq!['m', 'e', 'r', 'g', 'e', 'd']);
}
/// Status of an eval.
#[derive(Debug, Clone, Copy, PartialEq, Eq, Structural)]
pub enum EvalStatus {
    Running,
    Passed,
    Failed,
}

impl EvalStatus {
    /// The name under which the value is stored.
    pub open spec fn name(self) -> Seq<char> {
        match self {
            EvalStatus::Running => "running"@,
            EvalStatus::Passed => "passed"@,
            EvalStatus::Failed => "failed"@,
        }
    }

    /// The value stored under the name `s`, if any.
    pub open spec fn parse(s: Seq<char>) -> Option<EvalStatus> {
        if s == "running"@ {
            Some(EvalStatus::Running)
        } else if s == "passed"@ {
            Some(EvalStatus::Passed)
        } else if s == "failed"@ {
            Some(EvalStatus::Failed)
        } else {
            None
        }
    }

    pub fn as_str(&self) -> (r: &'static str)
        ensures
            r@ == self.name(),
    {
        match self {
            EvalStatus::Running => "running",
            EvalStatus::Passed => "passed",
            EvalStatus::Failed => "failed",
        }
    }

    pub fn from_str(s: &str) -> (r: Option<EvalStatus>)
        ensures
            r == EvalStatus::parse(s@),
    {
        if str_eq(s, "running") {
            Some(EvalStatus::Running)
        } else if str_eq(s, "passed") {
            Some(EvalStatus::Passed)
        } else if str_eq(s, "failed") {
            Some(EvalStatus::Failed)
        } else {
            None
        }
    }
}

/// Reading back the stored name of any `EvalStatus` gives the same value.
pub proof fn lemma_eval_status_name_round_trip(x: EvalStatus)
    ensures
        EvalStatus::parse(x.name()) == Some(x),
{
    reveal_strlit("running");
    reveal_strlit("passed");
    reveal_strlit("failed");
    assert("running"@ =~= seq!['r', 'u', 'n', 'n', 'i', 'n', 'g']);
    assert("passed"@ =~= seq!['p', 'a', 's', 's', 'e', 'd']);
    assert("failed"@ =~= seq!['f', 'a', 'i', 'l', 'e', 'd']);
}
/// Status of a worker.
#[derive(Debug, Clone, Copy, PartialEq, Eq, Structural)]
pub enum WorkerStatus {
    Idle,
    Working,
    /// Waiting for the user's reply.
    Waiting,
    /// No work to do: no task available, or all work complete.
    Awaiting,
    /// Paused because the run is paused.
    Paused,
    /// The worker process died unexpectedly.
    Error,
}

impl WorkerStatus {
    /// The name under which the value is stored.
    pub open spec fn name(self) -> Seq<char> {
        match self {
            WorkerStatus::Idle => "idle"@,
            WorkerStatus::Working => "working"@,
            WorkerStatus::Waiting => "waiting"@,
            WorkerStatus::Awaiting => "awaiting"@,
            WorkerStatus::Paused => "paused"@,
            WorkerStatus::Error => "error"@,
        }
    }

    /// The value stored under the name `s`, if any.
    pub open spec fn parse(s: Seq<char>) -> Option<WorkerStatus> {
        if s == "idle"@ {
            Some(WorkerStatus::Idle)
        } else if s == "working"@ {
            Some(WorkerStatus::Working)
        } else if s == "waiting"@ {
            Some(WorkerStatus::Waiting)
        } else if s == "awaiting"@ {
            Some(WorkerStatus::Awaiting)
        } else if s == "paused"@ {
            Some(WorkerStatus::Paused)
        } else if s == "error"@ {
            Some(WorkerStatus::Error)
        } else {
            None
        }
    }

    pub fn as_str(&self) -> (r: &'static str)
        ensures
            r@ == self.name(),
    {
        match self {
            WorkerStatus::Idle => "idle",
            WorkerStatus::Working => "working",
            WorkerStatus::Waiting => "waiting",
            WorkerStatus::Awaiting => "awaiting",
            WorkerStatus::Paused => "paused",
            WorkerStatus::Error => "error",
        }
    }

    pub fn from_str(s: &str) -> (r: Option<WorkerStatus>)
        ensures
            r == WorkerStatus::parse(s@),
    {
        if str_eq(s, "idle") {
            Some(WorkerStatus::Idle)
        } else if str_eq(s, "working") {
            Some(WorkerStatus::Working)
        } else if str_eq(s, "waiting") {
            Some(WorkerStatus::Waiting)
        } else if str_eq(s, "awaiting") {
            Some(WorkerStatus::Awaiting)
        } else if str_eq(s, "paused") {
            Some(WorkerStatus::Paused)
        } else if str_eq(s, "error") {
            Some(WorkerStatus::Error)
        } else {
            None
        }
    }
}

/// Reading back the stored name of any `WorkerStatus` gives the same value.
pub proof fn lemma_worker_status_name_round_trip(x: WorkerStatus)
    ensures
        WorkerStatus::parse(x.name()) == Some(x),
{
    reveal_strlit("idle");
    reveal_strlit("working");
    reveal_strlit("waiting");
    reveal_strlit("awaiting");
    reveal_strlit("paused");
    reveal_strlit("error");
    assert("idle"@ =~= seq!['i', 'd', 'l', 'e']);
    assert("working"@ =~= seq!['w', 'o', 'r', 'k', 'i', 'n', 'g']);
    assert("waiting"@ =~= seq!['w', 'a', 'i', 't', 'i', 'n', 'g']);
    assert("awaiting"@ =~= seq!['a', 'w', 'a', 'i', 't', 'i', 'n', 'g']);
    assert("paused"@ =~= seq!['p', 'a', 'u', 's', 'e', 'd']);
    assert("error"@ =~= seq!['e', 'r', 'r', 'o', 'r']);
}
impl WorkerStatus {
    /// Workers that are not actively working: awaiting or in error.
    pub open spec fn inactive(self) -> bool {
        self == WorkerStatus::Awaiting || self == WorkerStatus::Error
    }

    /// Whether the worker is inactive (not actively working).
    pub fn is_inactive(&self) -> (r: bool)
        ensures
            r == self.inactive(),
    {
        match self {
            WorkerStatus::Awaiting | WorkerStatus::Error => true,
            _ => false,
        }
    }
}

/// Status of a task.
#[derive(Debug, Clone, Copy, PartialEq, Eq, Structural)]
pub enum TaskStatus {
    Todo,
    Doing,
    Done,
}

impl TaskStatus {
    /// The name under which the value is stored.
    pub open spec fn name(self) -> Seq<char> {
        match self {
            TaskStatus::Todo => "todo"@,
            TaskStatus::Doing => "doing"@,
            TaskStatus::Done => "done"@,
        }
    }

    /// The value stored under the name `s`, if any.
    pub open spec fn parse(s: Seq<char>) -> Option<TaskStatus> {
        if s == "todo"@ {
            Some(TaskStatus::Todo)
        } else if s == "doing"@ {
            Some(TaskStatus::Doing)
        } else if s == "done"@ {
            Some(TaskStatus::Done)
        } else {
            None
        }
    }

    pub fn as_str(&self) -> (r: &'static str)
        ensures
            r@ == self.name(),
    {
        match self {
            TaskStatus::Todo => "todo",
            TaskStatus::Doing => "doing",
            TaskStatus::Done => "done",
        }
    }

    pub fn from_str(s: &str) -> (r: Option<TaskStatus>)
        ensures
            r == TaskStatus::parse(s@),
    {
        if str_eq(s, "todo") {
            Some(TaskStatus::Todo)
        } else if str_eq(s, "doing") {
            Some(TaskStatus::Doing)
        } else if str_eq(s, "done") {
            Some(TaskStatus::Done)
        } else {
            None
        }
    }
}

/// Reading back the stored name of any `TaskStatus` gives the same value.
pub proof fn lemma_task_status_name_round_trip(x: TaskStatus)
    ensures
        TaskStatus::parse(x.name()) == Some(x),
{
    reveal_strlit("todo");
    reveal_strlit("doing");
    reveal_strlit("done");
    assert("todo"@ =~= seq!['t', 'o', 'd', 'o']);
    assert("doing"@ =~= seq!['d', 'o', 'i', 'n', 'g']);
    assert("done"@ =~= seq!['d', 'o', 'n', 'e']);
}
/// Type of a worker output event.
#[derive(Debug, Clone, Copy, PartialEq, Eq, Structural)]
pub enum WorkerEventType {
    /// Agent text output.
    Text,
    /// Tool call started.
    ToolStart,
    /// Tool call status update.
    ToolUpdate,
    /// Agent reasoning, when enabled.
    Thought,
}

impl WorkerEventType {
    /// The name under which the value is stored.
    pub open spec fn name(self) -> Seq<char> {
        match self {
            WorkerEventType::Text => "text"@,
            WorkerEventType::ToolStart => "tool_start"@,
            WorkerEventType::ToolUpdate => "tool_update"@,
            WorkerEventType::Thought => "thought"@,
        }
    }

    /// The value stored under the name `s`, if any.
    pub open spec fn parse(s: Seq<char>) -> Option<WorkerEventType> {
        if s == "text"@ {
            Some(WorkerEventType::Text)
        } else if s == "tool_start"@ {
            Some(WorkerEventType::ToolStart)
        } else if s == "tool_update"@ {
            Some(WorkerEventType::ToolUpdate)
        } else if s == "thought"@ {
            Some(WorkerEventType::Thought)
        } else {
            None
        }
    }

    pub fn as_str(&self) -> (r: &'static str)
        ensures
            r@ == self.name(),
    {
        match self {
            WorkerEventType::Text => "text",
            WorkerEventType::ToolStart => "tool_start",
            WorkerEventType::ToolUpdate => "tool_update",
            WorkerEventType::Thought => "thought",
        }
    }

    pub fn from_str(s: &str) -> (r: Option<WorkerEventType>)
        ensures
            r == WorkerEventType::parse(s@),
    {
        if str_eq(s, "text") {
            Some(WorkerEventType::Text)
        } else if str_eq(s, "tool_start") {
            Some(WorkerEventType::ToolStart)
        } else if str_eq(s, "tool_update") {
            Some(WorkerEventType::ToolUpdate)
        } else if str_eq(s, "thought") {
            Some(WorkerEventType::Thought)
        } else {
            None
        }
    }
}

/// Reading back the stored name of any `WorkerEventType` gives the same value.
pub proof fn lemma_worker_event_type_name_round_trip(x: WorkerEventType)
    ensures
        WorkerEventType::parse(x.name()) == Some(x),
{
    reveal_strlit("text");
    reveal_strlit("tool_start");
    reveal_strlit("tool_update");
    reveal_strlit("thought");
    assert("text"@ =~= seq!['t', 'e', 'x', 't']);
    assert("tool_start"@ =~= seq!['t', 'o', 'o', 'l', '_', 's', 't', 'a', 'r', 't']);
    assert("tool_update"@ =~= seq!['t', 'o', 'o', 'l', '_', 'u', 'p', 'd', 'a', 't', 'e']);
    assert("thought"@ =~= seq!['t', 'h', 'o', 'u', 'g', 'h', 't']);
}
/// Status of a tool call.
#[derive(Debug, Clone, Copy, PartialEq, Eq, Structural)]
pub enum ToolCallStatus {
    Pending,
    InProgress,
    Completed,
    Failed,
}

impl ToolCallStatus {
    /// The name under which the value is stored.
    pub open spec fn name(self) -> Seq<char> {
        match self {
            ToolCallStatus::Pending => "pending"@,
            ToolCallStatus::InProgress => "in_progress"@,
            ToolCallStatus::Completed => "completed"@,
            ToolCallStatus::Failed => "failed"@,
        }
    }

    /// The value stored under the name `s`, if any.
    pub open spec fn parse(s: Seq<char>) -> Option<ToolCallStatus> {
        if s == "pending"@ {
            Some(ToolCallStatus::Pending)
        } else if s == "in_progress"@ {
            Some(ToolCallStatus::InProgress)
        } else if s == "completed"@ {
            Some(ToolCallStatus::Completed)
        } else if s == "failed"@ {
            Some(ToolCallStatus::Failed)
        } else {
            None
        }
    }

    pub fn as_str(&self) -> (r: &'static str)
        ensures
            r@ == self.name(),
    {
        match self {
            ToolCallStatus::Pending => "pending",
            ToolCallStatus::InProgress => "in_progress",
            ToolCallStatus::Completed => "completed",
            ToolCallStatus::Failed => "failed",
        }
    }

    pub fn from_str(s: &str) -> (r: Option<ToolCallStatus>)
        ensures
            r == ToolCallStatus::parse(s@),
    {
        if str_eq(s, "pending") {
            Some(ToolCallStatus::Pending)
        } else if str_eq(s, "in_progress") {
            Some(ToolCallStatus::InProgress)
        } else if str_eq(s, "completed") {
            Some(ToolCallStatus::Completed)
        } else if str_eq(s, "failed") {
            Some(ToolCallStatus::Failed)
        } else {
            None
        }
    }
}

/// Reading back the stored name of any `ToolCallStatus` gives the same value.
pub proof fn lemma_tool_call_status_name_round_trip(x: ToolCallStatus)
    ensures
        ToolCallStatus::parse(x.name()) == Some(x),
{
    reveal_strlit("pending");
    reveal_strlit("in_progress");
    reveal_strlit("completed");
    reveal_strlit("failed");
    assert("pending"@ =~= seq!['p', 'e', 'n', 'd', 'i', 'n', 'g']);
    assert("in_progress"@ =~= seq!['i', 'n', '_', 'p', 'r', 'o', 'g', 'r', 'e', 's', 's']);
    assert("completed"@ =~= seq!['c', 'o', 'm', 'p', 'l', 'e', 't', 'e', 'd']);
    assert("failed"@ =~= seq!['f', 'a', 'i', 'l', 'e', 'd']);
}
/// The characters of an optional string.
pub open spec fn opt_view(o: Option<String>) -> Option<Seq<char>> {
    match o {
        Some(s) => Some(s@),
        None => None,
    }
}

/// A copy of an optional string.
pub fn clone_opt(o: &Option<String>) -> (r: Option<String>)
    ensures
        r == *o,
{
    match o {
        Some(s) => Some(s.clone()),
        None => None,
    }
}

/// A task of the run's task tree.
#[derive(Debug)]
pub struct Task {
    pub id: String,
    pub name: String,
    pub status: TaskStatus,
    pub created_at: String,
    pub completed_at: Option<String>,
    pub claimed_by: Option<String>,
    pub claimed_at: Option<String>,
    pub pending_done_at: Option<String>,
    pub tokens_used: Option<i64>,
    pub parent_id: Option<String>,
    /// Comma-separated ids of the tasks that block this one.
    pub blocked_by: Option<String>,
}

/// The contents of a task.
pub struct TaskView {
    pub id: Seq<char>,
    pub name: Seq<char>,
    pub status: TaskStatus,
    pub created_at: Seq<char>,
    pub completed_at: Option<Seq<char>>,
    pub claimed_by: Option<Seq<char>>,
    pub claimed_at: Option<Seq<char>>,
    pub pending_done_at: Option<Seq<char>>,
    pub tokens_used: Option<i64>,
    pub parent_id: Option<Seq<char>>,
    pub blocked_by: Option<Seq<char>>,
}

impl View for Task {
    type V = TaskView;

    open spec fn view(&self) -> TaskView {
        TaskView {
            id: self.id@,
            name: self.name@,
            status: self.status,
            created_at: self.created_at@,
            completed_at: opt_view(self.completed_at),
            claimed_by: opt_view(self.claimed_by),
            claimed_at: opt_view(self.claimed_at),
            pending_done_at: opt_view(self.pending_done_at),
            tokens_used: self.tokens_used,
            parent_id: opt_view(self.parent_id),
            blocked_by: opt_view(self.blocked_by),
        }
    }
}

impl Clone for Task {
    fn clone(&self) -> (r: Self)
        ensures
            r@ == self@,
    {
        Task {
            id: self.id.clone(),
            name: self.name.clone(),
            status: self.status,
            created_at: self.created_at.clone(),
            completed_at: clone_opt(&self.completed_at),
            claimed_by: clone_opt(&self.claimed_by),
            claimed_at: clone_opt(&self.claimed_at),
            pending_done_at: clone_opt(&self.pending_done_at),
            tokens_used: self.tokens_used,
            parent_id: clone_opt(&self.parent_id),
            blocked_by: clone_opt(&self.blocked_by),
        }
    }
}

/// A worker of the run.
#[derive(Debug)]
pub struct Worker {
    pub id: i64,
    pub name: String,
    pub pid: Option<i64>,
    pub session_id: Option<String>,
    pub session_started_at: Option<String>,
    pub status: WorkerStatus,
    pub work_dir: Option<String>,
    pub waiting_thread: Option<String>,
    pub needs_restart: bool,
    pub location: String,
    pub last_heartbeat: Option<String>,
    pub created_at: String,
    /// Waiting for the user to answer.
    pub hitl_waiting: bool,
}

/// The contents of a worker.
pub struct WorkerView {
    pub id: i64,
    pub name: Seq<char>,
    pub pid: Option<i64>,
    pub session_id: Option<Seq<char>>,
    pub session_started_at: Option<Seq<char>>,
    pub status: WorkerStatus,
    pub work_dir: Option<Seq<char>>,
    pub waiting_thread: Option<Seq<char>>,
    pub needs_restart: bool,
    pub location: Seq<char>,
    pub last_heartbeat: Option<Seq<char>>,
    pub created_at: Seq<char>,
    pub hitl_waiting: bool,
}

impl View for Worker {
    type V = WorkerView;

    open spec fn view(&self) -> WorkerView {
        WorkerView {
            id: self.id,
            name: self.name@,
            pid: self.pid,
            session_id: opt_view(self.session_id),
            session_started_at: opt_view(self.session_started_at),
            status: self.status,
            work_dir: opt_view(self.work_dir),
            waiting_thread: opt_view(self.waiting_thread),
            needs_restart: self.needs_restart,
            location: self.location@,
            last_heartbeat: opt_view(self.last_heartbeat),
            created_at: self.created_at@,
            hitl_waiting: self.hitl_waiting,
        }
    }
}

impl Clone for Worker {
    fn clone(&self) -> (r: Self)
        ensures
            r@ == self@,
    {
        Worker {
            id: self.id,
            name: self.name.clone(),
            pid: self.pid,
            session_id: clone_opt(&self.session_id),
            session_started_at: clone_opt(&self.session_started_at),
            status: self.status,
            work_dir: clone_opt(&self.work_dir),
            waiting_thread: clone_opt(&self.waiting_thread),
            needs_restart: self.needs_restart,
            location: self.location.clone(),
            last_heartbeat: clone_opt(&self.last_heartbeat),
            created_at: self.created_at.clone(),
            hitl_waiting: self.hitl_waiting,
        }
    }
}

/// An eval of the run.
#[derive(Debug)]
pub struct Eval {
    pub id: i64,
    pub branch: String,
    pub eval_name: Option<String>,
    pub status: EvalStatus,
    pub feedback: Option<String>,
    pub log_file: Option<String>,
    /// The eval process, once known.
    pub pid: Option<i64>,
    pub started_at: String,
    pub finished_at: Option<String>,
}

/// The contents of an eval.
pub struct EvalView {
    pub id: i64,
    pub branch: Seq<char>,
    pub eval_name: Option<Seq<char>>,
    pub status: EvalStatus,
    pub feedback: Option<Seq<char>>,
    pub log_file: Option<Seq<char>>,
    pub pid: Option<i64>,
    pub started_at: Seq<char>,
    pub finished_at: Option<Seq<char>>,
}

impl View for Eval {
    type V = EvalView;

    open spec fn view(&self) -> EvalView {
        EvalView {
            id: self.id,
            branch: self.branch@,
            eval_name: opt_view(self.eval_name),
            status: self.status,
            feedback: opt_view(self.feedback),
            log_file: opt_view(self.log_file),
            pid: self.pid,
            started_at: self.started_at@,
            finished_at: opt_view(self.finished_at),
        }
    }
}

impl Clone for Eval {
    fn clone(&self) -> (r: Self)
        ensures
            r@ == self@,
    {
        Eval {
            id: self.id,
            branch: self.branch.clone(),
            eval_name: clone_opt(&self.eval_name),
            status: self.status,
            feedback: clone_opt(&self.feedback),
            log_file: clone_opt(&self.log_file),
            pid: self.pid,
            started_at: self.started_at.clone(),
            finished_at: clone_opt(&self.finished_at),
        }
    }
}

/// A chat message between workers and the user.
#[derive(Debug)]
pub struct Message {
    pub id: i64,
    pub thread: String,
    pub sender: String,
    pub content: String,
    pub timestamp: String,
    pub waiting: bool,
}

/// One entry of the run's history log.
#[derive(Debug)]
pub struct HistoryEntry {
    pub id: i64,
    pub timestamp: String,
    pub action: String,
    pub detail: Option<String>,
}

/// An amendment to the run's request.
#[derive(Debug)]
pub struct Amendment {
    pub id: i64,
    pub message: String,
    pub timestamp: String,
    pub author: String,
    pub spec_hash: String,
}

/// A worker output event, streamed to the user interface.
#[derive(Debug)]
pub struct WorkerEvent {
    pub id: i64,
    pub worker_name: String,
    pub event_type: WorkerEventType,
    pub timestamp: String,
    /// Text content, for text and thought events.
    pub content: Option<String>,
    /// Tool call id, for tool events.
    pub tool_call_id: Option<String>,
    pub tool_title: Option<String>,
    /// Tool kind (read, edit, execute, search, ...).
    pub tool_kind: Option<String>,
    pub tool_status: Option<ToolCallStatus>,
    /// Tool input, as JSON.
    pub tool_input: Option<String>,
    /// Tool output, as JSON.
    pub tool_output: Option<String>,
}

/// Errors that the run state's own rules produce. Database failures are
/// reported by the storage layer that loads and saves the state.
#[derive(Debug)]
pub enum StateError {
    NotFound(String),
    InvalidState(String),
    AlreadyExists(String),
}

/// A partial update of a worker: each field that is `Some` is written.
pub struct WorkerUpdate {
    pub pid: Option<i64>,
    pub session_id: Option<String>,
    pub status: Option<WorkerStatus>,
    pub waiting_thread: Option<String>,
    pub needs_restart: Option<bool>,
    pub last_heartbeat: Option<String>,
}

impl Default for WorkerUpdate {
    fn default() -> (r: Self)
        ensures
            r.pid is None,
            r.session_id is None,
            r.status is None,
            r.waiting_thread is None,
            r.needs_restart is None,
            r.last_heartbeat is None,
    {
        WorkerUpdate {
            pid: None,
            session_id: None,
            status: None,
            waiting_thread: None,
            needs_restart: None,
            last_heartbeat: None,
        }
    }
}

/// A history record appended by an operation: its action and detail. The
/// storage layer stamps it with the time when it saves it.
#[derive(Debug)]
pub struct LogEntry {
    pub action: String,
    pub detail: Option<String>,
}

impl View for LogEntry {
    type V = (Seq<char>, Option<Seq<char>>);

    open spec fn view(&self) -> (Seq<char>, Option<Seq<char>>) {
        (self.action@, opt_view(self.detail))
    }
}

/// The state of a run as its database holds it.
pub struct SQLiteState {
    pub status: Status,
    pub waiting_reason: Option<String>,
    /// Tasks in order of creation.
    pub tasks: Vec<Task>,
    /// Workers in order of id.
    pub workers: Vec<Worker>,
    /// Evals in order of id.
    pub evals: Vec<Eval>,
    /// History records appended since the state was loaded, oldest first.
    pub log: Vec<LogEntry>,
    /// The settings row, once it exists.
    pub settings: Option<RunSettings>,
    /// Messages, read marks, stored history, amendments and worker events.
    pub journal: RunJournal,
}

/// The contents of a run state.
pub struct RunView {
    pub status: Status,
    pub waiting_reason: Option<Seq<char>>,
    pub tasks: Seq<TaskView>,
    pub workers: Seq<WorkerView>,
    pub evals: Seq<EvalView>,
    pub log: Seq<(Seq<char>, Option<Seq<char>>)>,
    pub settings: Option<SettingsView>,
    pub journal: JournalView,
}

impl View for SQLiteState {
    type V = RunView;

    open spec fn view(&self) -> RunView {
        RunView {
            status: self.status,
            waiting_reason: opt_view(self.waiting_reason),
            tasks: self.tasks@.map_values(|t: Task| t@),
            workers: self.workers@.map_values(|w: Worker| w@),
            evals: self.evals@.map_values(|e: Eval| e@),
            log: self.log@.map_values(|e: LogEntry| e@),
            settings: settings_view(self.settings),
            journal: self.journal@,
        }
    }
}

} // verus!
