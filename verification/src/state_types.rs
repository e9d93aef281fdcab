//! Status enums of a run, its workers, evals and deliveries, and the
//! records that the run database stores.

use vstd::prelude::*;
use crate::text::{concat, concat3, str_eq};

verus! {

/// Run status: the overall state of a run.
#[derive(Debug, Clone, Copy, PartialEq, Eq, Structural)]
pub enum Status {
    /// Configured but not started (no workers spawned).
    Draft,
    /// Workers actively running.
    Working,
    /// Manually paused by the user.
    Paused,
    /// The run failed; the failure reason says why.
    Failed,
    /// Evaluation in progress.
    Eval,
    /// All work complete and the eval passed (or there is none).
    Done,
    /// Changes delivered to a branch.
    Delivered,
}

impl Status {
    /// The name under which the value is stored.
    pub open spec fn name(self) -> Seq<char> {
        match self {
            Status::Draft => "draft"@,
            Status::Working => "working"@,
            Status::Paused => "paused"@,
            Status::Failed => "failed"@,
            Status::Eval => "eval"@,
            Status::Done => "done"@,
            Status::Delivered => "delivered"@,
        }
    }

    /// The value stored under the name `s`, if any.
    pub open spec fn parse(s: Seq<char>) -> Option<Status> {
        if s == "draft"@ {
            Some(Status::Draft)
        } else if s == "working"@ {
            Some(Status::Working)
        } else if s == "paused"@ {
            Some(Status::Paused)
        } else if s == "failed"@ {
            Some(Status::Failed)
        } else if s == "eval"@ {
            Some(Status::Eval)
        } else if s == "done"@ {
            Some(Status::Done)
        } else if s == "delivered"@ {
            Some(Status::Delivered)
        } else {
            None
        }
    }

    pub fn as_str(&self) -> (r: &'static str)
        ensures
            r@ == self.name(),
    {
        match self {
            Status::Draft => "draft",
            Status::Working => "working",
            Status::Paused => "paused",
            Status::Failed => "failed",
            Status::Eval => "eval",
            Status::Done => "done",
            Status::Delivered => "delivered",
        }
    }

    pub fn from_str(s: &str) -> (r: Option<Status>)
        ensures
            r == Status::parse(s@),
    {
        if str_eq(s, "draft") {
            Some(Status::Draft)
        } else if str_eq(s, "working") {
            Some(Status::Working)
        } else if str_eq(s, "paused") {
            Some(Status::Paused)
        } else if str_eq(s, "failed") {
            Some(Status::Failed)
        } else if str_eq(s, "eval") {
            Some(Status::Eval)
        } else if str_eq(s, "done") {
            Some(Status::Done)
        } else if str_eq(s, "delivered") {
            Some(Status::Delivered)
        } else {
            None
        }
    }
}

/// Reading back the stored name of any `Status` gives the same value.
pub proof fn lemma_status_name_round_trip(x: Status)
    ensures
        Status::parse(x.name()) == Some(x),
{
    reveal_strlit("draft");
    reveal_strlit("working");
    reveal_strlit("paused");
    reveal_strlit("failed");
    reveal_strlit("eval");
    reveal_strlit("done");
    reveal_strlit("delivered");
    assert("draft"@ =~= seq!['d', 'r', 'a', 'f', 't']);
    assert("working"@ =~= seq!['w', 'o', 'r', 'k', 'i', 'n', 'g']);
    assert("paused"@ =~= seq!['p', 'a', 'u', 's', 'e', 'd']);
    assert("failed"@ =~= seq!['f', 'a', 'i', 'l', 'e', 'd']);
    assert("eval"@ =~= seq!['e', 'v', 'a', 'l']);
    assert("done"@ =~= seq!['d', 'o', 'n', 'e']);
    assert("delivered"@ =~= seq!['d', 'e', 'l', 'i', 'v', 'e', 'r', 'e', 'd']);
}
impl Status {
    /// Completed runs: done, delivered or failed.
    pub open spec fn terminal(self) -> bool {
        self == Status::Done || self == Status::Delivered || self == Status::Failed
    }

    /// Statuses under which workers may run: working or eval.
    pub open spec fn active(self) -> bool {
        self == Status::Working || self == Status::Eval
    }

    /// Whether this status represents a completed run.
    pub fn is_terminal(&self) -> (r: bool)
        ensures
            r == self.terminal(),
    {
        match self {
            Status::Done | Status::Delivered | Status::Failed => true,
            _ => false,
        }
    }

    /// Whether this status allows workers to run.
    pub fn is_active(&self) -> (r: bool)
        ensures
            r == self.active(),
    {
        match self {
            Status::Working | Status::Eval => true,
            _ => false,
        }
    }
}

/// A completed run never lets workers run.
pub proof fn lemma_terminal_status_is_not_active(s: Status)
    ensures
        !(s.terminal() && s.active()),
{
}

/// Reason for a run failure.
#[derive(Debug, Clone, Copy, PartialEq, Eq, Structural)]
pub enum FailureReason {
    /// Maximum iterations exceeded.
    IterationLimit,
    /// Time limit exceeded.
    TimeLimit,
    /// Maximum eval attempts reached.
    EvalFailed,
    /// The user marked the run as failed.
    Manual,
}

impl FailureReason {
    /// The name under which the value is stored.
    pub open spec fn name(self) -> Seq<char> {
        match self {
            FailureReason::IterationLimit => "iteration_limit"@,
            FailureReason::TimeLimit => "time_limit"@,
            FailureReason::EvalFailed => "eval_failed"@,
            FailureReason::Manual => "manual"@,
        }
    }

    /// The value stored under the name `s`, if any.
    pub open spec fn parse(s: Seq<char>) -> Option<FailureReason> {
        if s == "iteration_limit"@ {
            Some(FailureReason::IterationLimit)
        } else if s == "time_limit"@ {
            Some(FailureReason::TimeLimit)
        } else if s == "eval_failed"@ {
            Some(FailureReason::EvalFailed)
        } else if s == "manual"@ {
            Some(FailureReason::Manual)
        } else {
            None
        }
    }

    pub fn as_str(&self) -> (r: &'static str)
        ensures
            r@ == self.name(),
    {
        match self {
            FailureReason::IterationLimit => "iteration_limit",
            FailureReason::TimeLimit => "time_limit",
            FailureReason::EvalFailed => "eval_failed",
            FailureReason::Manual => "manual",
        }
    }

    pub fn from_str(s: &str) -> (r: Option<FailureReason>)
        ensures
            r == FailureReason::parse(s@),
    {
        if str_eq(s, "iteration_limit") {
            Some(FailureReason::IterationLimit)
        } else if str_eq(s, "time_limit") {
            Some(FailureReason::TimeLimit)
        } else if str_eq(s, "eval_failed") {
            Some(FailureReason::EvalFailed)
        } else if str_eq(s, "manual") {
            Some(FailureReason::Manual)
        } else {
            None
        }
    }
}

/// Reading back the stored name of any `FailureReason` gives the same value.
pub proof fn lemma_failure_reason_name_round_trip(x: FailureReason)
    ensures
        FailureReason::parse(x.name()) == Some(x),
{
    reveal_strlit("iteration_limit");
    reveal_strlit("time_limit");
    reveal_strlit("eval_failed");
    reveal_strlit("manual");
    assert("iteration_limit"@ =~= seq!['i', 't', 'e', 'r', 'a', 't', 'i', 'o', 'n', '_', 'l', 'i', 'm', 'i', 't']);
    assert("time_limit"@ =~= seq!['t', 'i', 'm', 'e', '_', 'l', 'i', 'm', 'i', 't']);
    assert("eval_failed"@ =~= seq!['e', 'v', 'a', 'l', '_', 'f', 'a', 'i', 'l', 'e', 'd']);
    assert("manual"@ =~= seq!['m', 'a', 'n', 'u', 'a', 'l']);
}
impl FailureReason {
    /// The message shown to the user for each reason.
    pub open spec fn message(self) -> Seq<char> {
        match self {
            FailureReason::IterationLimit => "Maximum iterations exceeded"@,
            FailureReason::TimeLimit => "Time limit reached"@,
            FailureReason::EvalFailed => "Evaluation failed after max retries"@,
            FailureReason::Manual => "Manually marked as failed"@,
        }
    }

    pub fn display_message(&self) -> (r: &'static str)
        ensures
            r@ == self.message(),
    {
        match self {
            FailureReason::IterationLimit => "Maximum iterations exceeded",
            FailureReason::TimeLimit => "Time limit reached",
            FailureReason::EvalFailed => "Evaluation failed after max retries",
            FailureReason::Manual => "Manually marked as failed",
        }
    }
}

/// Status of an eval.
#[derive(Debug, Clone, Copy, PartialEq, Eq, Structural)]
pub enum EvalStatus {
    Running,
    Passed,
    Failed,
}

impl EvalStatus {
    /// The name under which the value is stored.
    pub open spec fn name(self) -> Seq<char> {
        match self {
            EvalStatus::Running => "running"@,
            EvalStatus::Passed => "passed"@,
            EvalStatus::Failed => "failed"@,
        }
    }

    /// The value stored under the name `s`, if any.
    pub open spec fn parse(s: Seq<char>) -> Option<EvalStatus> {
        if s == "running"@ {
            Some(EvalStatus::Running)
        } else if s == "passed"@ {
            Some(EvalStatus::Passed)
        } else if s == "failed"@ {
            Some(EvalStatus::Failed)
        } else {
            None
        }
    }

    pub fn as_str(&self) -> (r: &'static str)
        ensures
            r@ == self.name(),
    {
        match self {
            EvalStatus::Running => "running",
            EvalStatus::Passed => "passed",
            EvalStatus::Failed => "failed",
        }
    }

    pub fn from_str(s: &str) -> (r: Option<EvalStatus>)
        ensures
            r == EvalStatus::parse(s@),
    {
        if str_eq(s, "running") {
            Some(EvalStatus::Running)
        } else if str_eq(s, "passed") {
            Some(EvalStatus::Passed)
        } else if str_eq(s, "failed") {
            Some(EvalStatus::Failed)
        } else {
            None
        }
    }
}

/// Reading back the stored name of any `EvalStatus` gives the same value.
pub proof fn lemma_eval_status_name_round_trip(x: EvalStatus)
    ensures
        EvalStatus::parse(x.name()) == Some(x),
{
    reveal_strlit("running");
    reveal_strlit("passed");
    reveal_strlit("failed");
    assert("running"@ =~= seq!['r', 'u', 'n', 'n', 'i', 'n', 'g']);
    assert("passed"@ =~= seq!['p', 'a', 's', 's', 'e', 'd']);
    assert("failed"@ =~= seq!['f', 'a', 'i', 'l', 'e', 'd']);
}
/// Status of a worker.
#[derive(Debug, Clone, Copy, PartialEq, Eq, Structural)]
pub enum WorkerStatus {
    /// Actively processing a task.
    Working,
    /// No work to do, or waiting for the user (see `hitl_waiting`).
    Awaiting,
    /// Paused because the run is paused or failed.
    Paused,
    /// The worker process died unexpectedly.
    Error,
}

impl WorkerStatus {
    /// The name under which the value is stored.
    pub open spec fn name(self) -> Seq<char> {
        match self {
            WorkerStatus::Working => "working"@,
            WorkerStatus::Awaiting => "awaiting"@,
            WorkerStatus::Paused => "paused"@,
            WorkerStatus::Error => "error"@,
        }
    }

    /// The value stored under the name `s`, if any.
    pub open spec fn parse(s: Seq<char>) -> Option<WorkerStatus> {
        if s == "working"@ {
            Some(WorkerStatus::Working)
        } else if s == "awaiting"@ {
            Some(WorkerStatus::Awaiting)
        } else if s == "paused"@ {
            Some(WorkerStatus::Paused)
        } else if s == "error"@ {
            Some(WorkerStatus::Error)
        } else {
            None
        }
    }

    pub fn as_str(&self) -> (r: &'static str)
        ensures
            r@ == self.name(),
    {
        match self {
            WorkerStatus::Working => "working",
            WorkerStatus::Awaiting => "awaiting",
            WorkerStatus::Paused => "paused",
            WorkerStatus::Error => "error",
        }
    }

    pub fn from_str(s: &str) -> (r: Option<WorkerStatus>)
        ensures
            r == WorkerStatus::parse(s@),
    {
        if str_eq(s, "working") {
            Some(WorkerStatus::Working)
        } else if str_eq(s, "awaiting") {
            Some(WorkerStatus::Awaiting)
        } else if str_eq(s, "paused") {
            Some(WorkerStatus::Paused)
        } else if str_eq(s, "error") {
            Some(WorkerStatus::Error)
        } else {
            None
        }
    }
}

/// Reading back the stored name of any `WorkerStatus` gives the same value.
pub proof fn lemma_worker_status_name_round_trip(x: WorkerStatus)
    ensures
        WorkerStatus::parse(x.name()) == Some(x),
{
    reveal_strlit("working");
    reveal_strlit("awaiting");
    reveal_strlit("paused");
    reveal_strlit("error");
    assert("working"@ =~= seq!['w', 'o', 'r', 'k', 'i', 'n', 'g']);
    assert("awaiting"@ =~= seq!['a', 'w', 'a', 'i', 't', 'i', 'n', 'g']);
    assert("paused"@ =~= seq!['p', 'a', 'u', 's', 'e', 'd']);
    assert("error"@ =~= seq!['e', 'r', 'r', 'o', 'r']);
}
impl WorkerStatus {
    /// Workers that are not actively working: awaiting or in error.
    pub open spec fn inactive(self) -> bool {
        self == WorkerStatus::Awaiting || self == WorkerStatus::Error
    }

    /// Workers that may be resumed: paused, in error or awaiting.
    pub open spec fn resumable(self) -> bool {
        self == WorkerStatus::Paused || self == WorkerStatus::Error || self == WorkerStatus::Awaiting
    }

    /// Whether the worker is inactive (not actively working).
    pub fn is_inactive(&self) -> (r: bool)
        ensures
            r == self.inactive(),
    {
        match self {
            WorkerStatus::Awaiting | WorkerStatus::Error => true,
            _ => false,
        }
    }

    /// Whether the worker can be resumed.
    pub fn can_resume(&self) -> (r: bool)
        ensures
            r == self.resumable(),
    {
        match self {
            WorkerStatus::Paused | WorkerStatus::Error | WorkerStatus::Awaiting => true,
            _ => false,
        }
    }
}

/// Every inactive worker can be resumed, and only a working worker cannot.
pub proof fn lemma_inactive_worker_can_resume(s: WorkerStatus)
    ensures
        s.inactive() ==> s.resumable(),
        !s.resumable() <==> s == WorkerStatus::Working,
{
}

/// Result of an eval: pass or fail.
#[derive(Debug, Clone, Copy, PartialEq, Eq, Structural)]
pub enum EvalResult {
    Pass,
    Fail,
}

impl EvalResult {
    /// The name under which the value is stored.
    pub open spec fn name(self) -> Seq<char> {
        match self {
            EvalResult::Pass => "pass"@,
            EvalResult::Fail => "fail"@,
        }
    }

    /// The value stored under the name `s`, if any.
    pub open spec fn parse(s: Seq<char>) -> Option<EvalResult> {
        if s == "pass"@ {
            Some(EvalResult::Pass)
        } else if s == "fail"@ {
            Some(EvalResult::Fail)
        } else {
            None
        }
    }

    pub fn as_str(&self) -> (r: &'static str)
        ensures
            r@ == self.name(),
    {
        match self {
            EvalResult::Pass => "pass",
            EvalResult::Fail => "fail",
        }
    }

    pub fn from_str(s: &str) -> (r: Option<EvalResult>)
        ensures
            r == EvalResult::parse(s@),
    {
        if str_eq(s, "pass") {
            Some(EvalResult::Pass)
        } else if str_eq(s, "fail") {
            Some(EvalResult::Fail)
        } else {
            None
        }
    }
}

/// Reading back the stored name of any `EvalResult` gives the same value.
pub proof fn lemma_eval_result_name_round_trip(x: EvalResult)
    ensures
        EvalResult::parse(x.name()) == Some(x),
{
    reveal_strlit("pass");
    reveal_strlit("fail");
    assert("pass"@ =~= seq!['p', 'a', 's', 's']);
    assert("fail"@ =~= seq!['f', 'a', 'i', 'l']);
}
/// Publication state of a run's changes.
#[derive(Debug, Clone, Copy, PartialEq, Eq, Structural)]
pub enum DeliveryStatus {
    /// Not yet delivered.
    Pending,
    /// Branch on the remote, no pull request.
    Pushed,
    /// Pull request created.
    PrOpen,
    /// Merged to the target.
    Merged,
    /// Discarded.
    Abandoned,
}

impl DeliveryStatus {
    /// The name under which the value is stored.
    pub open spec fn name(self) -> Seq<char> {
        match self {
            DeliveryStatus::Pending => "pending"@,
            DeliveryStatus::Pushed => "pushed"@,
            DeliveryStatus::PrOpen => "pr_open"@,
            DeliveryStatus::Merged => "merged"@,
            DeliveryStatus::Abandoned => "abandoned"@,
        }
    }

    /// The value stored under the name `s`, if any.
    pub open spec fn parse(s: Seq<char>) -> Option<DeliveryStatus> {
        if s == "pending"@ {
            Some(DeliveryStatus::Pending)
        } else if s == "pushed"@ {
            Some(DeliveryStatus::Pushed)
        } else if s == "pr_open"@ {
            Some(DeliveryStatus::PrOpen)
        } else if s == "merged"@ {
            Some(DeliveryStatus::Merged)
        } else if s == "abandoned"@ {
            Some(DeliveryStatus::Abandoned)
        } else {
            None
        }
    }

    pub fn as_str(&self) -> (r: &'static str)
        ensures
            r@ == self.name(),
    {
        match self {
            DeliveryStatus::Pending => "pending",
            DeliveryStatus::Pushed => "pushed",
            DeliveryStatus::PrOpen => "pr_open",
            DeliveryStatus::Merged => "merged",
            DeliveryStatus::Abandoned => "abandoned",
        }
    }

    pub fn from_str(s: &str) -> (r: Option<DeliveryStatus>)
        ensures
            r == DeliveryStatus::parse(s@),
    {
        if str_eq(s, "pending") {
            Some(DeliveryStatus::Pending)
        } else if str_eq(s, "pushed") {
            Some(DeliveryStatus::Pushed)
        } else if str_eq(s, "pr_open") {
            Some(DeliveryStatus::PrOpen)
        } else if str_eq(s, "merged") {
            Some(DeliveryStatus::Merged)
        } else if str_eq(s, "abandoned") {
            Some(DeliveryStatus::Abandoned)
        } else {
            None
        }
    }
}

/// Reading back the stored name of any `DeliveryStatus` gives the same value.
pub proof fn lemma_delivery_status_name_round_trip(x: DeliveryStatus)
    ensures
        DeliveryStatus::parse(x.name()) == Some(x),
{
    reveal_strlit("pending");
    reveal_strlit("pushed");
    reveal_strlit("pr_open");
    reveal_strlit("merged");
    reveal_strlit("abandoned");
    assert("pending"@ =~= seq!['p', 'e', 'n', 'd', 'i', 'n', 'g']);
    assert("pushed"@ =~= seq!['p', 'u', 's', 'h', 'e', 'd']);
    assert("pr_open"@ =~= seq!['p', 'r', '_', 'o', 'p', 'e', 'n']);
    assert("merged"@ =~= seq!['m', 'e', 'r', 'g', 'e', 'd']);
    assert("abandoned"@ =~= seq!['a', 'b', 'a', 'n', 'd', 'o', 'n', 'e', 'd']);
}
impl DeliveryStatus {
    /// Deliveries with no further action possible: merged or abandoned.
    pub open spec fn terminal(self) -> bool {
        self == DeliveryStatus::Merged || self == DeliveryStatus::Abandoned
    }

    /// Whether the delivery is terminal (no further actions possible).
    pub fn is_terminal(&self) -> (r: bool)
        ensures
            r == self.terminal(),
    {
        match self {
            DeliveryStatus::Merged | DeliveryStatus::Abandoned => true,
            _ => false,
        }
    }
}

impl Default for DeliveryStatus {
    fn default() -> (r: Self)
        ensures
            r == DeliveryStatus::Pending,
    {
        DeliveryStatus::Pending
    }
}

/// Whether a run can be cleanly merged.
#[derive(Debug, Clone, Copy, PartialEq, Eq, Structural)]
pub enum MergeState {
    /// Not yet checked.
    Unknown,
    /// Auto-merge possible.
    Clean,
    /// Needs resolution.
    Conflicts,
}

impl MergeState {
    /// The name under which the value is stored.
    pub open spec fn name(self) -> Seq<char> {
        match self {
            MergeState::Unknown => "unknown"@,
            MergeState::Clean => "clean"@,
            MergeState::Conflicts => "conflicts"@,
        }
    }

    /// The value stored under the name `s`, if any.
    pub open spec fn parse(s: Seq<char>) -> Option<MergeState> {
        if s == "unknown"@ {
            Some(MergeState::Unknown)
        } else if s == "clean"@ {
            Some(MergeState::Clean)
        } else if s == "conflicts"@ {
            Some(MergeState::Conflicts)
        } else {
            None
        }
    }

    pub fn as_str(&self) -> (r: &'static str)
        ensures
            r@ == self.name(),
    {
        match self {
            MergeState::Unknown => "unknown",
            MergeState::Clean => "clean",
            MergeState::Conflicts => "conflicts",
        }
    }

    pub fn from_str(s: &str) -> (r: Option<MergeState>)
        ensures
            r == MergeState::parse(s@),
    {
        if str_eq(s, "unknown") {
            Some(MergeState::Unknown)
        } else if str_eq(s, "clean") {
            Some(MergeState::Clean)
        } else if str_eq(s, "conflicts") {
            Some(MergeState::Conflicts)
        } else {
            None
        }
    }
}

/// Reading back the stored name of any `MergeState` gives the same value.
pub proof fn lemma_merge_state_name_round_trip(x: MergeState)
    ensures
        MergeState::parse(x.name()) == Some(x),
{
    reveal_strlit("unknown");
    reveal_strlit("clean");
    reveal_strlit("conflicts");
    assert("unknown"@ =~= seq!['u', 'n', 'k', 'n', 'o', 'w', 'n']);
    assert("clean"@ =~= seq!['c', 'l', 'e', 'a', 'n']);
    assert("conflicts"@ =~= seq!['c', 'o', 'n', 'f', 'l', 'i', 'c', 't', 's']);
}
impl Default for MergeState {
    fn default() -> (r: Self)
        ensures
            r == MergeState::Unknown,
    {
        MergeState::Unknown
    }
}

/// Type of a worker output event.
#[derive(Debug, Clone, Copy, PartialEq, Eq, Structural)]
pub enum WorkerEventType {
    /// Agent text output.
    Text,
    /// Tool call started.
    ToolStart,
    /// Tool call status update.
    ToolUpdate,
    /// Agent reasoning, when enabled.
    Thought,
}

impl WorkerEventType {
    /// The name under which the value is stored.
    pub open spec fn name(self) -> Seq<char> {
        match self {
            WorkerEventType::Text => "text"@,
            WorkerEventType::ToolStart => "tool_start"@,
            WorkerEventType::ToolUpdate => "tool_update"@,
            WorkerEventType::Thought => "thought"@,
        }
    }

    /// The value stored under the name `s`, if any.
    pub open spec fn parse(s: Seq<char>) -> Option<WorkerEventType> {
        if s == "text"@ {
            Some(WorkerEventType::Text)
        } else if s == "tool_start"@ {
            Some(WorkerEventType::ToolStart)
        } else if s == "tool_update"@ {
            Some(WorkerEventType::ToolUpdate)
        } else if s == "thought"@ {
            Some(WorkerEventType::Thought)
        } else {
            None
        }
    }

    pub fn as_str(&self) -> (r: &'static str)
        ensures
            r@ == self.name(),
    {
        match self {
            WorkerEventType::Text => "text",
            WorkerEventType::ToolStart => "tool_start",
            WorkerEventType::ToolUpdate => "tool_update",
            WorkerEventType::Thought => "thought",
        }
    }

    pub fn from_str(s: &str) -> (r: Option<WorkerEventType>)
        ensures
            r == WorkerEventType::parse(s@),
    {
        if str_eq(s, "text") {
            Some(WorkerEventType::Text)
        } else if str_eq(s, "tool_start") {
            Some(WorkerEventType::ToolStart)
        } else if str_eq(s, "tool_update") {
            Some(WorkerEventType::ToolUpdate)
        } else if str_eq(s, "thought") {
            Some(WorkerEventType::Thought)
        } else {
            None
        }
    }
}

/// Reading back the stored name of any `WorkerEventType` gives the same value.
pub proof fn lemma_worker_event_type_name_round_trip(x: WorkerEventType)
    ensures
        WorkerEventType::parse(x.name()) == Some(x),
{
    reveal_strlit("text");
    reveal_strlit("tool_start");
    reveal_strlit("tool_update");
    reveal_strlit("thought");
    assert("text"@ =~= seq!['t', 'e', 'x', 't']);
    assert("tool_start"@ =~= seq!['t', 'o', 'o', 'l', '_', 's', 't', 'a', 'r', 't']);
    assert("tool_update"@ =~= seq!['t', 'o', 'o', 'l', '_', 'u', 'p', 'd', 'a', 't', 'e']);
    assert("thought"@ =~= seq!['t', 'h', 'o', 'u', 'g', 'h', 't']);
}
/// Status of a tool call.
#[derive(Debug, Clone, Copy, PartialEq, Eq, Structural)]
pub enum ToolCallStatus {
    Pending,
    InProgress,
    Completed,
    Failed,
}

impl ToolCallStatus {
    /// The name under which the value is stored.
    pub open spec fn name(self) -> Seq<char> {
        match self {
            ToolCallStatus::Pending => "pending"@,
            ToolCallStatus::InProgress => "in_progress"@,
            ToolCallStatus::Completed => "completed"@,
            ToolCallStatus::Failed => "failed"@,
        }
    }

    /// The value stored under the name `s`, if any.
    pub open spec fn parse(s: Seq<char>) -> Option<ToolCallStatus> {
        if s == "pending"@ {
            Some(ToolCallStatus::Pending)
        } else if s == "in_progress"@ {
            Some(ToolCallStatus::InProgress)
        } else if s == "completed"@ {
            Some(ToolCallStatus::Completed)
        } else if s == "failed"@ {
            Some(ToolCallStatus::Failed)
        } else {
            None
        }
    }

    pub fn as_str(&self) -> (r: &'static str)
        ensures
            r@ == self.name(),
    {
        match self {
            ToolCallStatus::Pending => "pending",
            ToolCallStatus::InProgress => "in_progress",
            ToolCallStatus::Completed => "completed",
            ToolCallStatus::Failed => "failed",
        }
    }

    pub fn from_str(s: &str) -> (r: Option<ToolCallStatus>)
        ensures
            r == ToolCallStatus::parse(s@),
    {
        if str_eq(s, "pending") {
            Some(ToolCallStatus::Pending)
        } else if str_eq(s, "in_progress") {
            Some(ToolCallStatus::InProgress)
        } else if str_eq(s, "completed") {
            Some(ToolCallStatus::Completed)
        } else if str_eq(s, "failed") {
            Some(ToolCallStatus::Failed)
        } else {
            None
        }
    }
}

/// Reading back the stored name of any `ToolCallStatus` gives the same value.
pub proof fn lemma_tool_call_status_name_round_trip(x: ToolCallStatus)
    ensures
        ToolCallStatus::parse(x.name()) == Some(x),
{
    reveal_strlit("pending");
    reveal_strlit("in_progress");
    reveal_strlit("completed");
    reveal_strlit("failed");
    assert("pending"@ =~= seq!['p', 'e', 'n', 'd', 'i', 'n', 'g']);
    assert("in_progress"@ =~= seq!['i', 'n', '_', 'p', 'r', 'o', 'g', 'r', 'e', 's', 's']);
    assert("completed"@ =~= seq!['c', 'o', 'm', 'p', 'l', 'e', 't', 'e', 'd']);
    assert("failed"@ =~= seq!['f', 'a', 'i', 'l', 'e', 'd']);
}
/// A worker of a run, as stored in the run database.
#[derive(Debug)]
pub struct Worker {
    pub id: i64,
    pub name: String,
    pub pid: Option<i64>,
    pub runner_id: Option<String>,
    pub runner_type: Option<String>,
    pub session_id: Option<String>,
    pub session_started_at: Option<String>,
    pub status: WorkerStatus,
    pub work_dir: Option<String>,
    pub waiting_thread: Option<String>,
    pub needs_restart: bool,
    pub location: String,
    pub last_heartbeat: Option<String>,
    pub created_at: String,
    /// Whether the worker is awaiting user input.
    pub hitl_waiting: bool,
    /// Serialised worker state handle, kept across pause and resume.
    pub state_handle: Option<String>,
    /// Task currently assigned to the worker.
    pub assigned_task_id: Option<String>,
    /// Last task the worker completed.
    pub last_task_id: Option<String>,
}

/// An eval of a run.
#[derive(Debug)]
pub struct Eval {
    pub id: i64,
    pub branch: String,
    pub eval_name: Option<String>,
    pub status: EvalStatus,
    pub feedback: Option<String>,
    pub log_file: Option<String>,
    pub started_at: String,
    pub finished_at: Option<String>,
    pub pid: Option<u32>,
}

/// One entry of a run's history log.
#[derive(Debug)]
pub struct HistoryEntry {
    pub id: i64,
    pub timestamp: String,
    pub action: String,
    pub detail: Option<String>,
}

/// An amendment to a run's request.
#[derive(Debug)]
pub struct Amendment {
    pub id: i64,
    pub message: String,
    pub timestamp: String,
    pub author: String,
    pub spec_hash: String,
}

/// A worker output event, streamed to the user interface.
#[derive(Debug)]
pub struct WorkerEvent {
    pub id: i64,
    pub worker_name: String,
    pub event_type: WorkerEventType,
    pub timestamp: String,
    /// Text content, for text and thought events.
    pub content: Option<String>,
    /// Tool call id, for tool events.
    pub tool_call_id: Option<String>,
    pub tool_title: Option<String>,
    /// Tool kind (read, edit, execute, search, ...).
    pub tool_kind: Option<String>,
    pub tool_status: Option<ToolCallStatus>,
    /// Tool input, as JSON.
    pub tool_input: Option<String>,
    /// Tool output, as JSON.
    pub tool_output: Option<String>,
}

/// Errors of the run state.
///
/// Database failures are reported by the storage layer around the library;
/// the variants here are those that the state's own rules produce.
#[derive(Debug)]
pub enum StateError {
    NotFound(String),
    InvalidState(String),
    AlreadyExists(String),
    Blocked(String),
    InvalidTransition(Status, Status),
}

impl StateError {
    /// The text that reports the error.
    pub open spec fn describe(self) -> Seq<char> {
        match self {
            StateError::NotFound(s) => "Not found: "@ + s@,
            StateError::InvalidState(s) => "Invalid state: "@ + s@,
            StateError::AlreadyExists(s) => "Already exists: "@ + s@,
            StateError::Blocked(s) => "Blocked: "@ + s@,
            StateError::InvalidTransition(from, to) => "Invalid transition: "@ + from.name() + " -> "@ + to.name(),
        }
    }

    /// The text that reports the error.
    pub fn to_message(&self) -> (r: String)
        ensures
            r@ == self.describe(),
    {
        match self {
            StateError::NotFound(s) => concat("Not found: ", s.as_str()),
            StateError::InvalidState(s) => concat("Invalid state: ", s.as_str()),
            StateError::AlreadyExists(s) => concat("Already exists: ", s.as_str()),
            StateError::Blocked(s) => concat("Blocked: ", s.as_str()),
            StateError::InvalidTransition(from, to) => {
                let head = concat3("Invalid transition: ", from.as_str(), " -> ");
                concat(head.as_str(), to.as_str())
            },
        }
    }
}

/// A partial update of a worker: each field that is `Some` is written.
pub struct WorkerUpdate {
    pub pid: Option<i64>,
    pub runner_id: Option<String>,
    pub runner_type: Option<String>,
    pub session_id: Option<String>,
    pub status: Option<WorkerStatus>,
    pub waiting_thread: Option<String>,
    pub needs_restart: Option<bool>,
    pub last_heartbeat: Option<String>,
    pub hitl_waiting: Option<bool>,
    /// `Some(Some(json))` sets the handle, `Some(None)` clears it.
    pub state_handle: Option<Option<String>>,
    /// `Some(Some(id))` sets the assigned task, `Some(None)` clears it.
    pub assigned_task_id: Option<Option<String>>,
    /// `Some(Some(id))` sets the last task, `Some(None)` clears it.
    pub last_task_id: Option<Option<String>>,
}

impl WorkerUpdate {
    /// The update that changes nothing.
    pub open spec fn is_empty(self) -> bool {
        &&& self.pid is None
        &&& self.runner_id is None
        &&& self.runner_type is None
        &&& self.session_id is None
        &&& self.status is None
        &&& self.waiting_thread is None
        &&& self.needs_restart is None
        &&& self.last_heartbeat is None
        &&& self.hitl_waiting is None
        &&& self.state_handle is None
        &&& self.assigned_task_id is None
        &&& self.last_task_id is None
    }
}

impl Default for WorkerUpdate {
    fn default() -> (r: Self)
        ensures
            r.is_empty(),
    {
        WorkerUpdate {
            pid: None,
            runner_id: None,
            runner_type: None,
            session_id: None,
            status: None,
            waiting_thread: None,
            needs_restart: None,
            last_heartbeat: None,
            hitl_waiting: None,
            state_handle: None,
            assigned_task_id: None,
            last_task_id: None,
        }
    }
}

} // verus!
