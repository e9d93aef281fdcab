//! The tasks of a run with their evals: work tasks produce changes, eval
//! tasks validate them.
//!
//! A work task goes todo → doing → done, or → awaiting_eval → validated when
//! an eval validates it; a failed eval sends the tasks it validates to
//! needs_repair and blocks the eval on a new repair task. An eval task goes
//! todo → doing → done. Tasks are claimed by workers, each worker holding at
//! most one task at a time; evals ready for evaluation come before work.

use vstd::prelude::*;
use crate::run_state::{clone_opt, opt_view, LogEntry};
use crate::state_types::{EvalResult, StateError, Worker, WorkerStatus, WorkerUpdate};
use crate::service_worker::{parse_u32, parse_u32_str};
use crate::text::{clone_strings, concat, concat3, contains_str, decimal, join, joined, str_eq, take_chars, to_chars, to_decimal, push_char, views};

verus! {

/// What a task is for.
#[derive(Debug, Clone, Copy, PartialEq, Eq, Structural)]
pub enum TaskType {
    /// Implementation work that produces changes.
    Work,
    /// A check that validates work tasks.
    Eval,
}

impl TaskType {
    /// The name under which the value is stored.
    pub open spec fn name(self) -> Seq<char> {
        match self {
            TaskType::Work => "work"@,
            TaskType::Eval => "eval"@,
        }
    }

    pub fn as_str(&self) -> (r: &'static str)
        ensures
            r@ == self.name(),
    {
        match self {
            TaskType::Work => "work",
            TaskType::Eval => "eval",
        }
    }
}

/// Where a task of the run is in its lifecycle.
#[derive(Debug, Clone, Copy, PartialEq, Eq, Structural)]
pub enum TaskStatus {
    Todo,
    Doing,
    Done,
    /// Work done, waiting for the eval that validates it.
    AwaitingEval,
    /// Work an eval has passed.
    Validated,
    /// Work an eval has failed, waiting for its repair.
    NeedsRepair,
}

impl TaskStatus {
    /// The name under which the value is stored.
    pub open spec fn name(self) -> Seq<char> {
        match self {
            TaskStatus::Todo => "todo"@,
            TaskStatus::Doing => "doing"@,
            TaskStatus::Done => "done"@,
            TaskStatus::AwaitingEval => "awaiting_eval"@,
            TaskStatus::Validated => "validated"@,
            TaskStatus::NeedsRepair => "needs_repair"@,
        }
    }

    pub fn as_str(&self) -> (r: &'static str)
        ensures
            r@ == self.name(),
    {
        match self {
            TaskStatus::Todo => "todo",
            TaskStatus::Doing => "doing",
            TaskStatus::Done => "done",
            TaskStatus::AwaitingEval => "awaiting_eval",
            TaskStatus::Validated => "validated",
            TaskStatus::NeedsRepair => "needs_repair",
        }
    }

    /// A complete task: done or validated.
    pub open spec fn complete(self) -> bool {
        self == TaskStatus::Done || self == TaskStatus::Validated
    }

    /// A task an eval can look at: done, awaiting its eval, or validated.
    pub open spec fn ready_for_eval(self) -> bool {
        self == TaskStatus::Done || self == TaskStatus::AwaitingEval || self == TaskStatus::Validated
    }
}

/// Who created a task.
#[derive(Debug, Clone, Copy, PartialEq, Eq, Structural)]
pub enum TaskSource {
    /// Created from the spec.
    Spec,
    /// Created by a worker.
    Worker,
}

/// A task of the run, with the columns that claiming and evaluating read
/// and write.
#[derive(Debug)]
pub struct FlowTask {
    pub id: String,
    pub name: String,
    pub status: TaskStatus,
    pub task_type: TaskType,
    pub created_at: String,
    pub completed_at: Option<String>,
    pub claimed_by: Option<String>,
    pub claimed_at: Option<String>,
    pub parent_id: Option<String>,
    /// The tasks that block this one.
    pub blocked_by: Vec<String>,
    pub eval_result: Option<EvalResult>,
    pub eval_feedback: Option<String>,
    pub board_task_id: Option<String>,
    pub source: TaskSource,
    /// When the task's worker began to finish it.
    pub pending_done_at: Option<String>,
    /// Tokens its worker spent on it.
    pub tokens_used: Option<i64>,
    /// The worker it is assigned to.
    pub assigned_to: Option<String>,
    /// The worker that completed it.
    pub completed_by: Option<String>,
}

/// The contents of a task.
pub struct FlowTaskView {
    pub id: Seq<char>,
    pub name: Seq<char>,
    pub status: TaskStatus,
    pub task_type: TaskType,
    pub created_at: Seq<char>,
    pub completed_at: Option<Seq<char>>,
    pub claimed_by: Option<Seq<char>>,
    pub claimed_at: Option<Seq<char>>,
    pub parent_id: Option<Seq<char>>,
    pub blocked_by: Seq<Seq<char>>,
    pub eval_result: Option<EvalResult>,
    pub eval_feedback: Option<Seq<char>>,
    pub board_task_id: Option<Seq<char>>,
    pub source: TaskSource,
    pub pending_done_at: Option<Seq<char>>,
    pub tokens_used: Option<i64>,
    pub assigned_to: Option<Seq<char>>,
    pub completed_by: Option<Seq<char>>,
}

impl View for FlowTask {
    type V = FlowTaskView;

    open spec fn view(&self) -> FlowTaskView {
        FlowTaskView {
            id: self.id@,
            name: self.name@,
            status: self.status,
            task_type: self.task_type,
            created_at: self.created_at@,
            completed_at: opt_view(self.completed_at),
            claimed_by: opt_view(self.claimed_by),
            claimed_at: opt_view(self.claimed_at),
            parent_id: opt_view(self.parent_id),
            blocked_by: views(self.blocked_by@),
            eval_result: self.eval_result,
            eval_feedback: opt_view(self.eval_feedback),
            board_task_id: opt_view(self.board_task_id),
            source: self.source,
            pending_done_at: opt_view(self.pending_done_at),
            tokens_used: self.tokens_used,
            assigned_to: opt_view(self.assigned_to),
            completed_by: opt_view(self.completed_by),
        }
    }
}

impl Clone for FlowTask {
    fn clone(&self) -> (r: Self)
        ensures
            r@ == self@,
    {
        FlowTask {
            id: self.id.clone(),
            name: self.name.clone(),
            status: self.status,
            task_type: self.task_type,
            created_at: self.created_at.clone(),
            completed_at: clone_opt(&self.completed_at),
            claimed_by: clone_opt(&self.claimed_by),
            claimed_at: clone_opt(&self.claimed_at),
            parent_id: clone_opt(&self.parent_id),
            blocked_by: clone_strings(self.blocked_by.as_slice()),
            eval_result: self.eval_result,
            eval_feedback: clone_opt(&self.eval_feedback),
            board_task_id: clone_opt(&self.board_task_id),
            source: self.source,
            pending_done_at: clone_opt(&self.pending_done_at),
            tokens_used: self.tokens_used,
            assigned_to: clone_opt(&self.assigned_to),
            completed_by: clone_opt(&self.completed_by),
        }
    }
}

/// The contents of a sequence of tasks.
pub open spec fn tviews(ts: Seq<FlowTask>) -> Seq<FlowTaskView> {
    ts.map_values(|t: FlowTask| t@)
}

/// The run's tasks, the eval links and the workers.
#[derive(Debug)]
pub struct RunTasks {
    /// Tasks in order of creation.
    pub tasks: Vec<FlowTask>,
    /// Which eval validates which task: pairs of eval id and task id.
    pub validates: Vec<(String, String)>,
    pub workers: Vec<Worker>,
    /// History records written since the tasks were loaded, oldest first.
    pub log: Vec<LogEntry>,
}

/// The eval links as pairs of texts.
pub open spec fn link_views(vs: Seq<(String, String)>) -> Seq<(Seq<char>, Seq<char>)> {
    vs.map_values(|p: (String, String)| (p.0@, p.1@))
}

/// The history records as pairs of action and detail.
pub open spec fn log_views(ls: Seq<LogEntry>) -> Seq<(Seq<char>, Option<Seq<char>>)> {
    ls.map_values(|e: LogEntry| e@)
}

// ---------------------------------------------------------------------------
// The model
// ---------------------------------------------------------------------------

/// Whether a task has id `id`.
pub open spec fn has_task(ts: Seq<FlowTaskView>, id: Seq<char>) -> bool {
    exists|k: int| 0 <= k < ts.len() && ts[k].id == id
}

/// The position of the task `id`.
pub open spec fn task_pos(ts: Seq<FlowTaskView>, id: Seq<char>) -> int {
    choose|k: int| 0 <= k < ts.len() && ts[k].id == id
}

/// The status of the task `id`, if there is one.
pub open spec fn status_of(ts: Seq<FlowTaskView>, id: Seq<char>) -> Option<TaskStatus> {
    if has_task(ts, id) {
        Some(ts[task_pos(ts, id)].status)
    } else {
        None
    }
}

/// Whether some eval validates the task `id`.
pub open spec fn has_eval(vs: Seq<(Seq<char>, Seq<char>)>, id: Seq<char>) -> bool {
    exists|k: int| 0 <= k < vs.len() && vs[k].1 == id
}

/// Whether a link belongs to the eval `eval_id`.
pub open spec fn link_of(eval_id: Seq<char>) -> spec_fn((Seq<char>, Seq<char>)) -> bool {
    |p: (Seq<char>, Seq<char>)| p.0 == eval_id
}

/// The tasks the eval `eval_id` validates, in order of its links.
pub open spec fn validated_ids(vs: Seq<(Seq<char>, Seq<char>)>, eval_id: Seq<char>) -> Seq<Seq<char>> {
    vs.filter(link_of(eval_id)).map_values(|p: (Seq<char>, Seq<char>)| p.1)
}

/// Whether some task has the task `id` as its parent.
pub open spec fn has_children(ts: Seq<FlowTaskView>, id: Seq<char>) -> bool {
    exists|k: int| 0 <= k < ts.len() && ts[k].parent_id == Some(id)
}

/// A task that may be claimed at all: to do, unclaimed, without children.
pub open spec fn open_leaf(ts: Seq<FlowTaskView>, t: FlowTaskView) -> bool {
    t.status == TaskStatus::Todo && t.claimed_by is None && !has_children(ts, t.id)
}

/// Whether the blocker `b` still blocks a work task: unless it is validated,
/// or done without an eval that validates it.
pub open spec fn blocks_work(ts: Seq<FlowTaskView>, vs: Seq<(Seq<char>, Seq<char>)>, b: Seq<char>) -> bool {
    !(status_of(ts, b) == Some(TaskStatus::Validated)
        || (status_of(ts, b) == Some(TaskStatus::Done) && !has_eval(vs, b)))
}

/// Whether the blocker `b` still blocks an eval task: while it is there and
/// not complete.
pub open spec fn blocks_eval(ts: Seq<FlowTaskView>, b: Seq<char>) -> bool {
    status_of(ts, b) matches Some(s) && !s.complete()
}

/// Whether every task the eval `eval_id` validates is there and ready for
/// it, and there is at least one.
pub open spec fn targets_ready(ts: Seq<FlowTaskView>, vs: Seq<(Seq<char>, Seq<char>)>, eval_id: Seq<char>) -> bool {
    let v = validated_ids(vs, eval_id);
    v.len() > 0 && forall|i: int| 0 <= i < v.len() ==> (status_of(ts, #[trigger] v[i]) matches Some(s) && s.ready_for_eval())
}

/// An eval task that can be claimed now.
pub open spec fn eval_claimable(ts: Seq<FlowTaskView>, vs: Seq<(Seq<char>, Seq<char>)>) -> spec_fn(FlowTaskView) -> bool {
    |t: FlowTaskView| open_leaf(ts, t) && t.task_type == TaskType::Eval && targets_ready(ts, vs, t.id)
        && !(exists|i: int| 0 <= i < t.blocked_by.len() && blocks_eval(ts, #[trigger] t.blocked_by[i]))
}

/// A work task that can be claimed now.
pub open spec fn work_claimable(ts: Seq<FlowTaskView>, vs: Seq<(Seq<char>, Seq<char>)>) -> spec_fn(FlowTaskView) -> bool {
    |t: FlowTaskView| open_leaf(ts, t) && t.task_type == TaskType::Work
        && forall|i: int| 0 <= i < t.blocked_by.len() ==> !blocks_work(ts, vs, #[trigger] t.blocked_by[i])
}

/// The tasks that can be claimed, in the order they are offered: ready
/// evals first, then unblocked work, each in order of creation.
pub open spec fn claimable(ts: Seq<FlowTaskView>, vs: Seq<(Seq<char>, Seq<char>)>) -> Seq<FlowTaskView> {
    ts.filter(eval_claimable(ts, vs)) + ts.filter(work_claimable(ts, vs))
}

/// Task ids are unique, and no worker holds two tasks at once.
pub open spec fn tasks_wf(ts: Seq<FlowTaskView>) -> bool {
    &&& forall|i: int, j: int| 0 <= i < ts.len() && 0 <= j < ts.len() && i != j ==> ts[i].id != ts[j].id
    &&& forall|i: int, j: int| 0 <= i < ts.len() && 0 <= j < ts.len() && i != j
        && ts[i].status == TaskStatus::Doing && ts[j].status == TaskStatus::Doing && ts[i].claimed_by is Some
        ==> ts[i].claimed_by != ts[j].claimed_by
}

impl RunTasks {
    pub open spec fn task_list(&self) -> Seq<FlowTaskView> {
        tviews(self.tasks@)
    }

    pub open spec fn links(&self) -> Seq<(Seq<char>, Seq<char>)> {
        link_views(self.validates@)
    }

    /// The run's tasks are consistent.
    pub open spec fn wf(&self) -> bool {
        tasks_wf(self.task_list())
    }
}

/// With unique ids, the position of an id is the one position that holds it.
proof fn lemma_task_pos(ts: Seq<FlowTaskView>, k: int)
    requires
        tasks_wf(ts),
        0 <= k < ts.len(),
    ensures
        has_task(ts, ts[k].id),
        task_pos(ts, ts[k].id) == k,
        status_of(ts, ts[k].id) == Some(ts[k].status),
{
    assert(has_task(ts, ts[k].id));
}

impl RunTasks {
    /// The position of the task `id`, if there is one.
    fn find(&self, id: &str) -> (r: Option<usize>)
        requires
            self.wf(),
        ensures
            match r {
                Some(k) => k < self.tasks.len() && self.task_list()[k as int].id == id@ && task_pos(self.task_list(), id@) == k
                    && has_task(self.task_list(), id@),
                None => !has_task(self.task_list(), id@),
            },
    {
        let ghost ts = self.task_list();
        let mut i: usize = 0;
        while i < self.tasks.len()
            invariant
                i <= self.tasks.len(),
                ts == self.task_list(),
                ts.len() == self.tasks.len(),
                tasks_wf(ts),
                forall|k: int| 0 <= k < i ==> ts[k].id != id@,
            decreases self.tasks.len() - i,
        {
            assert(ts[i as int] == self.tasks@[i as int]@);
            if str_eq(self.tasks[i].id.as_str(), id) {
                proof {
                    lemma_task_pos(ts, i as int);
                }
                return Some(i);
            }
            i = i + 1;
        }
        None
    }

    /// The status of the task `id`, if there is one.
    fn status_of_task(&self, id: &str) -> (r: Option<TaskStatus>)
        requires
            self.wf(),
        ensures
            r == status_of(self.task_list(), id@),
    {
        match self.find(id) {
            Some(k) => {
                assert(self.task_list()[k as int] == self.tasks@[k as int]@);
                Some(self.tasks[k].status)
            },
            None => None,
        }
    }

    /// Whether some eval validates the task `id`.
    pub fn has_validating_eval(&self, id: &str) -> (r: bool)
        ensures
            r == has_eval(self.links(), id@),
    {
        let ghost vs = self.links();
        let mut i: usize = 0;
        while i < self.validates.len()
            invariant
                i <= self.validates.len(),
                vs == self.links(),
                vs.len() == self.validates.len(),
                forall|k: int| 0 <= k < i ==> vs[k].1 != id@,
            decreases self.validates.len() - i,
        {
            assert(vs[i as int] == (self.validates@[i as int].0@, self.validates@[i as int].1@));
            if str_eq(self.validates[i].1.as_str(), id) {
                return true;
            }
            i = i + 1;
        }
        false
    }

    /// Whether some task has the task `id` as its parent.
    pub fn has_children(&self, id: &str) -> (r: bool)
        ensures
            r == has_children(self.task_list(), id@),
    {
        let ghost ts = self.task_list();
        let mut i: usize = 0;
        while i < self.tasks.len()
            invariant
                i <= self.tasks.len(),
                ts == self.task_list(),
                ts.len() == self.tasks.len(),
                forall|k: int| 0 <= k < i ==> ts[k].parent_id != Some(id@),
            decreases self.tasks.len() - i,
        {
            assert(ts[i as int] == self.tasks@[i as int]@);
            if let Some(p) = &self.tasks[i].parent_id {
                if str_eq(p.as_str(), id) {
                    return true;
                }
            }
            i = i + 1;
        }
        false
    }

    /// The tasks the eval `eval_id` validates, in order of its links.
    pub fn get_validated_tasks(&self, eval_id: &str) -> (r: Vec<String>)
        ensures
            views(r@) == validated_ids(self.links(), eval_id@),
    {
        let ghost vs = self.links();
        let ghost pred = link_of(eval_id@);
        let mut out: Vec<String> = Vec::new();
        let mut i: usize = 0;
        proof {
            reveal(Seq::filter);
            assert(vs.take(0) =~= Seq::<(Seq<char>, Seq<char>)>::empty());
            assert(vs.take(0).filter(pred) =~= Seq::<(Seq<char>, Seq<char>)>::empty());
        }
        assert(views(out@) =~= vs.take(0).filter(pred).map_values(|p: (Seq<char>, Seq<char>)| p.1));
        while i < self.validates.len()
            invariant
                i <= self.validates.len(),
                vs == self.links(),
                vs.len() == self.validates.len(),
                pred == link_of(eval_id@),
                views(out@) == vs.take(i as int).filter(pred).map_values(|p: (Seq<char>, Seq<char>)| p.1),
            decreases self.validates.len() - i,
        {
            assert(vs[i as int] == (self.validates@[i as int].0@, self.validates@[i as int].1@));
            assert(vs.take(i as int + 1) =~= vs.take(i as int).push(vs[i as int]));
            proof {
                vs.take(i as int).lemma_filter_push(vs[i as int], pred);
            }
            let ghost before = views(out@);
            if str_eq(self.validates[i].0.as_str(), eval_id) {
                out.push(self.validates[i].1.clone());
                assert(views(out@) =~= before.push(vs[i as int].1));
                assert(vs.take(i as int + 1).filter(pred).map_values(|p: (Seq<char>, Seq<char>)| p.1)
                    =~= vs.take(i as int).filter(pred).map_values(|p: (Seq<char>, Seq<char>)| p.1).push(vs[i as int].1));
            } else {
                assert(vs.take(i as int + 1).filter(pred) == vs.take(i as int).filter(pred));
            }
            i = i + 1;
        }
        assert(vs.take(vs.len() as int) =~= vs);
        out
    }
}

impl RunTasks {
    /// Whether every task the eval `eval_id` validates is there and ready.
    fn targets_are_ready(&self, eval_id: &str) -> (r: bool)
        requires
            self.wf(),
        ensures
            r == targets_ready(self.task_list(), self.links(), eval_id@),
    {
        let v = self.get_validated_tasks(eval_id);
        let ghost ids = views(v@);
        if v.len() == 0 {
            return false;
        }
        let mut i: usize = 0;
        while i < v.len()
            invariant
                i <= v.len(),
                self.wf(),
                ids == views(v@),
                ids == validated_ids(self.links(), eval_id@),
                forall|k: int| 0 <= k < i ==> (status_of(self.task_list(), #[trigger] ids[k]) matches Some(s) && s.ready_for_eval()),
            decreases v.len() - i,
        {
            assert(ids[i as int] == v@[i as int]@);
            match self.status_of_task(v[i].as_str()) {
                Some(s) => {
                    if !(s == TaskStatus::Done || s == TaskStatus::AwaitingEval || s == TaskStatus::Validated) {
                        return false;
                    }
                },
                None => {
                    return false;
                },
            }
            i = i + 1;
        }
        true
    }

    /// Whether one of the blockers of the task at `k` still blocks it as an
    /// eval.
    fn eval_blocked(&self, k: usize) -> (r: bool)
        requires
            self.wf(),
            k < self.tasks.len(),
        ensures
            r == exists|i: int| 0 <= i < self.task_list()[k as int].blocked_by.len()
                && blocks_eval(self.task_list(), #[trigger] self.task_list()[k as int].blocked_by[i]),
    {
        let ghost ts = self.task_list();
        let ghost bs = ts[k as int].blocked_by;
        assert(ts[k as int] == self.tasks@[k as int]@);
        let n = self.tasks[k].blocked_by.len();
        let mut i: usize = 0;
        while i < n
            invariant
                i <= n,
                k < self.tasks.len(),
                self.wf(),
                ts == self.task_list(),
                bs == ts[k as int].blocked_by,
                bs == views(self.tasks@[k as int].blocked_by@),
                n == self.tasks@[k as int].blocked_by.len(),
                forall|q: int| 0 <= q < i ==> !blocks_eval(ts, #[trigger] bs[q]),
            decreases n - i,
        {
            assert(bs[i as int] == self.tasks@[k as int].blocked_by@[i as int]@);
            match self.status_of_task(self.tasks[k].blocked_by[i].as_str()) {
                Some(s) => {
                    if !(s == TaskStatus::Done || s == TaskStatus::Validated) {
                        return true;
                    }
                },
                None => {},
            }
            i = i + 1;
        }
        false
    }

    /// Whether one of the blockers of the task at `k` still blocks it as
    /// work.
    fn work_blocked(&self, k: usize) -> (r: bool)
        requires
            self.wf(),
            k < self.tasks.len(),
        ensures
            r == exists|i: int| 0 <= i < self.task_list()[k as int].blocked_by.len()
                && blocks_work(self.task_list(), self.links(), #[trigger] self.task_list()[k as int].blocked_by[i]),
    {
        let ghost ts = self.task_list();
        let ghost bs = ts[k as int].blocked_by;
        assert(ts[k as int] == self.tasks@[k as int]@);
        let n = self.tasks[k].blocked_by.len();
        let mut i: usize = 0;
        while i < n
            invariant
                i <= n,
                k < self.tasks.len(),
                self.wf(),
                ts == self.task_list(),
                bs == ts[k as int].blocked_by,
                bs == views(self.tasks@[k as int].blocked_by@),
                n == self.tasks@[k as int].blocked_by.len(),
                forall|q: int| 0 <= q < i ==> !blocks_work(ts, self.links(), #[trigger] bs[q]),
            decreases n - i,
        {
            assert(bs[i as int] == self.tasks@[k as int].blocked_by@[i as int]@);
            let b = self.tasks[k].blocked_by[i].as_str();
            let st = self.status_of_task(b);
            let free = match st {
                Some(TaskStatus::Validated) => true,
                Some(TaskStatus::Done) => !self.has_validating_eval(b),
                _ => false,
            };
            if !free {
                return true;
            }
            i = i + 1;
        }
        false
    }

    /// The tasks that can be claimed, in the order they are offered: evals
    /// whose tasks are all ready and whose blockers are complete, then work
    /// whose blockers are validated (or done, when no eval validates them);
    /// only unclaimed tasks to do without children, each group in order of
    /// creation.
    pub fn get_claimable_tasks(&self) -> (r: Vec<FlowTask>)
        requires
            self.wf(),
        ensures
            tviews(r@) == claimable(self.task_list(), self.links()),
    {
        let ghost ts = self.task_list();
        let ghost ep = eval_claimable(ts, self.links());
        let ghost wp = work_claimable(ts, self.links());
        let mut evals: Vec<FlowTask> = Vec::new();
        let mut work: Vec<FlowTask> = Vec::new();
        let mut i: usize = 0;
        proof {
            reveal(Seq::filter);
            assert(ts.take(0) =~= Seq::<FlowTaskView>::empty());
            assert(ts.take(0).filter(ep) =~= Seq::<FlowTaskView>::empty());
            assert(ts.take(0).filter(wp) =~= Seq::<FlowTaskView>::empty());
        }
        assert(tviews(evals@) =~= Seq::<FlowTaskView>::empty());
        assert(tviews(work@) =~= Seq::<FlowTaskView>::empty());
        while i < self.tasks.len()
            invariant
                i <= self.tasks.len(),
                self.wf(),
                ts == self.task_list(),
                ts.len() == self.tasks.len(),
                ep == eval_claimable(ts, self.links()),
                wp == work_claimable(ts, self.links()),
                tviews(evals@) == ts.take(i as int).filter(ep),
                tviews(work@) == ts.take(i as int).filter(wp),
            decreases self.tasks.len() - i,
        {
            let ghost t = ts[i as int];
            assert(t == self.tasks@[i as int]@);
            assert(ts.take(i as int + 1) =~= ts.take(i as int).push(t));
            proof {
                ts.take(i as int).lemma_filter_push(t, ep);
                ts.take(i as int).lemma_filter_push(t, wp);
            }
            let open = self.tasks[i].status == TaskStatus::Todo && self.tasks[i].claimed_by.is_none()
                && !self.has_children(self.tasks[i].id.as_str());
            let ghost be = tviews(evals@);
            let ghost bw = tviews(work@);
            if open {
                match self.tasks[i].task_type {
                    TaskType::Eval => {
                        if self.targets_are_ready(self.tasks[i].id.as_str()) && !self.eval_blocked(i) {
                            evals.push(self.tasks[i].clone());
                            assert(tviews(evals@) =~= be.push(t));
                        }
                    },
                    TaskType::Work => {
                        if !self.work_blocked(i) {
                            work.push(self.tasks[i].clone());
                            assert(tviews(work@) =~= bw.push(t));
                        }
                    },
                }
            }
            i = i + 1;
        }
        assert(ts.take(ts.len() as int) =~= ts);
        let mut out = evals;
        let ghost e = tviews(out@);
        out.append(&mut work);
        assert(tviews(out@) =~= e + ts.filter(wp));
        out
    }
}

/// A task named as an alternative or as pending: its id, name and type.
#[derive(Debug)]
pub struct TaskSummary {
    pub id: String,
    pub name: String,
    pub task_type: TaskType,
}

/// A task that still blocks another: its id, name, status and claimer.
#[derive(Debug)]
pub struct BlockerInfo {
    pub task_id: String,
    pub name: String,
    pub status: TaskStatus,
    pub claimed_by: Option<String>,
}

/// Why a claim was refused.
#[derive(Debug)]
pub enum ClaimRejectReason {
    NotFound { task_id: String },
    AlreadyComplete { task_id: String, status: TaskStatus },
    ClaimedByOther { task_id: String, claimed_by: String },
    WorkerBusy { existing_task_id: String },
    HasChildren { task_id: String, children: Vec<String> },
    Blocked { task_id: String, blockers: Vec<BlockerInfo> },
    EvalNotReady { task_id: String, pending_tasks: Vec<TaskSummary> },
}

/// The answer to a claim: the claimed task, or why not and what could be
/// claimed instead.
#[derive(Debug)]
pub enum ClaimTaskResult {
    Success { task: FlowTask },
    Rejected { reason: ClaimRejectReason, alternatives: Vec<TaskSummary> },
}

/// What a summary says of a task.
pub open spec fn summary_of(t: FlowTaskView) -> (Seq<char>, Seq<char>, TaskType) {
    (t.id, t.name, t.task_type)
}

/// What summaries say.
pub open spec fn summary_views(v: Seq<TaskSummary>) -> Seq<(Seq<char>, Seq<char>, TaskType)> {
    v.map_values(|x: TaskSummary| (x.id@, x.name@, x.task_type))
}

/// What blocker records say.
pub open spec fn blocker_views(v: Seq<BlockerInfo>) -> Seq<(Seq<char>, Seq<char>, TaskStatus, Option<Seq<char>>)> {
    v.map_values(|x: BlockerInfo| (x.task_id@, x.name@, x.status, opt_view(x.claimed_by)))
}

/// The tasks offered instead of a refused claim: the first five that can be
/// claimed.
pub open spec fn alternatives_of(ts: Seq<FlowTaskView>, vs: Seq<(Seq<char>, Seq<char>)>) -> Seq<(Seq<char>, Seq<char>, TaskType)> {
    let c = claimable(ts, vs);
    c.take(if c.len() < 5 { c.len() as int } else { 5 }).map_values(|t: FlowTaskView| summary_of(t))
}

/// Whether a task is a child of `id`.
pub open spec fn child_of(id: Seq<char>) -> spec_fn(FlowTaskView) -> bool {
    |t: FlowTaskView| t.parent_id == Some(id)
}

/// The ids of the children of `id`, in order of creation.
pub open spec fn children_ids(ts: Seq<FlowTaskView>, id: Seq<char>) -> Seq<Seq<char>> {
    ts.filter(child_of(id)).map_values(|t: FlowTaskView| t.id)
}

/// Whether the blocker `b` of a work task is there and still blocks it:
/// not validated when an eval validates it, else not complete.
pub open spec fn still_blocking(ts: Seq<FlowTaskView>, vs: Seq<(Seq<char>, Seq<char>)>) -> spec_fn(Seq<char>) -> bool {
    |b: Seq<char>| has_task(ts, b) && if has_eval(vs, b) {
        ts[task_pos(ts, b)].status != TaskStatus::Validated
    } else {
        !ts[task_pos(ts, b)].status.complete()
    }
}

/// The record of a blocker.
pub open spec fn blocker_of(ts: Seq<FlowTaskView>, b: Seq<char>) -> (Seq<char>, Seq<char>, TaskStatus, Option<Seq<char>>) {
    let t = ts[task_pos(ts, b)];
    (t.id, t.name, t.status, t.claimed_by)
}

/// The blockers that still block the work task `t`, in its order.
pub open spec fn blocker_infos(ts: Seq<FlowTaskView>, vs: Seq<(Seq<char>, Seq<char>)>, t: FlowTaskView) -> Seq<(Seq<char>, Seq<char>, TaskStatus, Option<Seq<char>>)> {
    t.blocked_by.filter(still_blocking(ts, vs)).map_values(|b: Seq<char>| blocker_of(ts, b))
}

/// Whether a task the eval validates is there and not ready for it.
pub open spec fn not_ready(ts: Seq<FlowTaskView>) -> spec_fn(Seq<char>) -> bool {
    |x: Seq<char>| has_task(ts, x) && !ts[task_pos(ts, x)].status.ready_for_eval()
}

/// The tasks the eval `id` validates that are not ready for it.
pub open spec fn pending_of(ts: Seq<FlowTaskView>, vs: Seq<(Seq<char>, Seq<char>)>, id: Seq<char>) -> Seq<(Seq<char>, Seq<char>, TaskType)> {
    validated_ids(vs, id).filter(not_ready(ts)).map_values(|x: Seq<char>| summary_of(ts[task_pos(ts, x)]))
}

/// Whether the worker holds a task.
pub open spec fn busy(ts: Seq<FlowTaskView>, worker: Seq<char>) -> bool {
    exists|k: int| 0 <= k < ts.len() && ts[k].status == TaskStatus::Doing && ts[k].claimed_by == Some(worker)
}

/// The task `t` claimed by `worker` at `now`.
pub open spec fn claimed(t: FlowTaskView, worker: Seq<char>, now: Seq<char>) -> FlowTaskView {
    FlowTaskView { status: TaskStatus::Doing, claimed_by: Some(worker), claimed_at: Some(now), ..t }
}

impl RunTasks {
    /// The first five tasks that can be claimed, as summaries.
    fn alternatives(&self) -> (r: Vec<TaskSummary>)
        requires
            self.wf(),
        ensures
            summary_views(r@) == alternatives_of(self.task_list(), self.links()),
    {
        let c = self.get_claimable_tasks();
        let ghost cv = tviews(c@);
        let n: usize = if c.len() < 5 { c.len() } else { 5 };
        let mut out: Vec<TaskSummary> = Vec::new();
        let mut i: usize = 0;
        while i < n
            invariant
                i <= n,
                n <= c.len(),
                cv == tviews(c@),
                summary_views(out@) == cv.take(i as int).map_values(|t: FlowTaskView| summary_of(t)),
            decreases n - i,
        {
            assert(cv[i as int] == c@[i as int]@);
            let ghost before = summary_views(out@);
            out.push(TaskSummary { id: c[i].id.clone(), name: c[i].name.clone(), task_type: c[i].task_type });
            assert(summary_views(out@) =~= before.push(summary_of(cv[i as int])));
            assert(cv.take(i as int + 1).map_values(|t: FlowTaskView| summary_of(t))
                =~= cv.take(i as int).map_values(|t: FlowTaskView| summary_of(t)).push(summary_of(cv[i as int])));
            i = i + 1;
        }
        out
    }

    /// The id of a task the worker holds, if any.
    fn held_task(&self, worker: &str) -> (r: Option<usize>)
        ensures
            match r {
                Some(k) => k < self.tasks.len() && self.task_list()[k as int].status == TaskStatus::Doing
                    && self.task_list()[k as int].claimed_by == Some(worker@),
                None => !busy(self.task_list(), worker@),
            },
    {
        let ghost ts = self.task_list();
        let mut i: usize = 0;
        while i < self.tasks.len()
            invariant
                i <= self.tasks.len(),
                ts == self.task_list(),
                ts.len() == self.tasks.len(),
                forall|k: int| 0 <= k < i ==> !(ts[k].status == TaskStatus::Doing && ts[k].claimed_by == Some(worker@)),
            decreases self.tasks.len() - i,
        {
            assert(ts[i as int] == self.tasks@[i as int]@);
            if self.tasks[i].status == TaskStatus::Doing {
                if let Some(c) = &self.tasks[i].claimed_by {
                    if str_eq(c.as_str(), worker) {
                        return Some(i);
                    }
                }
            }
            i = i + 1;
        }
        None
    }

    /// The ids of the children of `id`, in order of creation.
    fn child_ids(&self, id: &str) -> (r: Vec<String>)
        ensures
            views(r@) == children_ids(self.task_list(), id@),
    {
        let ghost ts = self.task_list();
        let ghost pred = child_of(id@);
        let mut out: Vec<String> = Vec::new();
        let mut i: usize = 0;
        proof {
            reveal(Seq::filter);
            assert(ts.take(0) =~= Seq::<FlowTaskView>::empty());
            assert(ts.take(0).filter(pred) =~= Seq::<FlowTaskView>::empty());
        }
        assert(views(out@) =~= ts.take(0).filter(pred).map_values(|t: FlowTaskView| t.id));
        while i < self.tasks.len()
            invariant
                i <= self.tasks.len(),
                ts == self.task_list(),
                ts.len() == self.tasks.len(),
                pred == child_of(id@),
                views(out@) == ts.take(i as int).filter(pred).map_values(|t: FlowTaskView| t.id),
            decreases self.tasks.len() - i,
        {
            let ghost t = ts[i as int];
            assert(t == self.tasks@[i as int]@);
            assert(ts.take(i as int + 1) =~= ts.take(i as int).push(t));
            proof {
                ts.take(i as int).lemma_filter_push(t, pred);
            }
            let ghost before = views(out@);
            let is_child = match &self.tasks[i].parent_id {
                Some(p) => str_eq(p.as_str(), id),
                None => false,
            };
            if is_child {
                out.push(self.tasks[i].id.clone());
                assert(views(out@) =~= before.push(t.id));
                assert(ts.take(i as int + 1).filter(pred).map_values(|t: FlowTaskView| t.id)
                    =~= ts.take(i as int).filter(pred).map_values(|t: FlowTaskView| t.id).push(t.id));
            } else {
                assert(ts.take(i as int + 1).filter(pred) == ts.take(i as int).filter(pred));
            }
            i = i + 1;
        }
        assert(ts.take(ts.len() as int) =~= ts);
        out
    }

    /// The children of the task `task_id`, in order of creation.
    pub fn get_children(&self, task_id: &str) -> (r: Vec<FlowTask>)
        ensures
            tviews(r@) == self.task_list().filter(child_of(task_id@)),
    {
        let ghost ts = self.task_list();
        let ghost pred = child_of(task_id@);
        let mut out: Vec<FlowTask> = Vec::new();
        let mut i: usize = 0;
        proof {
            reveal(Seq::filter);
            assert(ts.take(0) =~= Seq::<FlowTaskView>::empty());
            assert(ts.take(0).filter(pred) =~= Seq::<FlowTaskView>::empty());
        }
        assert(tviews(out@) =~= ts.take(0).filter(pred));
        while i < self.tasks.len()
            invariant
                i <= self.tasks.len(),
                ts == self.task_list(),
                ts.len() == self.tasks.len(),
                pred == child_of(task_id@),
                tviews(out@) == ts.take(i as int).filter(pred),
            decreases self.tasks.len() - i,
        {
            let ghost t = ts[i as int];
            assert(t == self.tasks@[i as int]@);
            assert(ts.take(i as int + 1) =~= ts.take(i as int).push(t));
            proof {
                ts.take(i as int).lemma_filter_push(t, pred);
            }
            let ghost before = tviews(out@);
            let is_child = match &self.tasks[i].parent_id {
                Some(p) => str_eq(p.as_str(), task_id),
                None => false,
            };
            if is_child {
                out.push(self.tasks[i].clone());
                assert(tviews(out@) =~= before.push(t));
            }
            i = i + 1;
        }
        assert(ts.take(ts.len() as int) =~= ts);
        out
    }

    /// The blockers that still block the work task at `k`.
    fn blocker_details(&self, k: usize) -> (r: Vec<BlockerInfo>)
        requires
            self.wf(),
            k < self.tasks.len(),
        ensures
            blocker_views(r@) == blocker_infos(self.task_list(), self.links(), self.task_list()[k as int]),
    {
        let ghost ts = self.task_list();
        let ghost vs = self.links();
        let ghost bs = ts[k as int].blocked_by;
        let ghost pred = still_blocking(ts, vs);
        assert(ts[k as int] == self.tasks@[k as int]@);
        let n = self.tasks[k].blocked_by.len();
        let mut out: Vec<BlockerInfo> = Vec::new();
        let mut i: usize = 0;
        proof {
            reveal(Seq::filter);
            assert(bs.take(0) =~= Seq::<Seq<char>>::empty());
            assert(bs.take(0).filter(pred) =~= Seq::<Seq<char>>::empty());
        }
        assert(blocker_views(out@) =~= bs.take(0).filter(pred).map_values(|b: Seq<char>| blocker_of(ts, b)));
        while i < n
            invariant
                i <= n,
                k < self.tasks.len(),
                self.wf(),
                ts == self.task_list(),
                vs == self.links(),
                bs == ts[k as int].blocked_by,
                bs == views(self.tasks@[k as int].blocked_by@),
                n == self.tasks@[k as int].blocked_by.len(),
                pred == still_blocking(ts, vs),
                blocker_views(out@) == bs.take(i as int).filter(pred).map_values(|b: Seq<char>| blocker_of(ts, b)),
            decreases n - i,
        {
            let ghost b = bs[i as int];
            assert(b == self.tasks@[k as int].blocked_by@[i as int]@);
            assert(bs.take(i as int + 1) =~= bs.take(i as int).push(b));
            proof {
                bs.take(i as int).lemma_filter_push(b, pred);
            }
            let ghost before = blocker_views(out@);
            let bid = self.tasks[k].blocked_by[i].as_str();
            let mut pushed = false;
            match self.find(bid) {
                Some(q) => {
                    assert(ts[q as int] == self.tasks@[q as int]@);
                    let st = self.tasks[q].status;
                    let blocking = if self.has_validating_eval(bid) {
                        st != TaskStatus::Validated
                    } else {
                        !(st == TaskStatus::Done || st == TaskStatus::Validated)
                    };
                    if blocking {
                        out.push(BlockerInfo {
                            task_id: self.tasks[q].id.clone(),
                            name: self.tasks[q].name.clone(),
                            status: st,
                            claimed_by: clone_opt(&self.tasks[q].claimed_by),
                        });
                        pushed = true;
                        assert(blocker_views(out@) =~= before.push(blocker_of(ts, b)));
                    }
                },
                None => {},
            }
            if pushed {
                assert(bs.take(i as int + 1).filter(pred).map_values(|b: Seq<char>| blocker_of(ts, b))
                    =~= bs.take(i as int).filter(pred).map_values(|b: Seq<char>| blocker_of(ts, b)).push(blocker_of(ts, b)));
            } else {
                assert(bs.take(i as int + 1).filter(pred) == bs.take(i as int).filter(pred));
            }
            i = i + 1;
        }
        assert(bs.take(n as int) =~= bs);
        out
    }

    /// The tasks the eval `id` validates that are not ready for it.
    fn pending_validates(&self, id: &str) -> (r: Vec<TaskSummary>)
        requires
            self.wf(),
        ensures
            summary_views(r@) == pending_of(self.task_list(), self.links(), id@),
    {
        let ghost ts = self.task_list();
        let v = self.get_validated_tasks(id);
        let ghost ids = views(v@);
        let ghost pred = not_ready(ts);
        let mut out: Vec<TaskSummary> = Vec::new();
        let mut i: usize = 0;
        proof {
            reveal(Seq::filter);
            assert(ids.take(0) =~= Seq::<Seq<char>>::empty());
            assert(ids.take(0).filter(pred) =~= Seq::<Seq<char>>::empty());
        }
        assert(summary_views(out@) =~= ids.take(0).filter(pred).map_values(|x: Seq<char>| summary_of(ts[task_pos(ts, x)])));
        while i < v.len()
            invariant
                i <= v.len(),
                self.wf(),
                ts == self.task_list(),
                ids == views(v@),
                ids.len() == v.len(),
                pred == not_ready(ts),
                summary_views(out@) == ids.take(i as int).filter(pred).map_values(|x: Seq<char>| summary_of(ts[task_pos(ts, x)])),
            decreases v.len() - i,
        {
            let ghost x = ids[i as int];
            assert(x == v@[i as int]@);
            assert(ids.take(i as int + 1) =~= ids.take(i as int).push(x));
            proof {
                ids.take(i as int).lemma_filter_push(x, pred);
            }
            let ghost before = summary_views(out@);
            let mut pushed = false;
            match self.find(v[i].as_str()) {
                Some(q) => {
                    assert(ts[q as int] == self.tasks@[q as int]@);
                    let st = self.tasks[q].status;
                    if !(st == TaskStatus::Done || st == TaskStatus::AwaitingEval || st == TaskStatus::Validated) {
                        out.push(TaskSummary {
                            id: self.tasks[q].id.clone(),
                            name: self.tasks[q].name.clone(),
                            task_type: self.tasks[q].task_type,
                        });
                        pushed = true;
                        assert(summary_views(out@) =~= before.push(summary_of(ts[task_pos(ts, x)])));
                    }
                },
                None => {},
            }
            if pushed {
                assert(ids.take(i as int + 1).filter(pred).map_values(|x: Seq<char>| summary_of(ts[task_pos(ts, x)]))
                    =~= ids.take(i as int).filter(pred).map_values(|x: Seq<char>| summary_of(ts[task_pos(ts, x)])).push(
                    summary_of(ts[task_pos(ts, x)])));
            } else {
                assert(ids.take(i as int + 1).filter(pred) == ids.take(i as int).filter(pred));
            }
            i = i + 1;
        }
        assert(ids.take(v.len() as int) =~= ids);
        out
    }
}

/// The run's tasks as they are after `t` is put at position `k`, the other
/// records unchanged.
pub open spec fn with_task_at(r: &RunTasks, k: int, t: FlowTaskView) -> Seq<FlowTaskView> {
    r.task_list().update(k, t)
}

impl RunTasks {
    /// Tries to claim the task `task_id` for `worker_name` at `now`. It is
    /// refused, with the first reason that holds in this order: the task is
    /// not there; it is neither to do nor doing; another worker holds it;
    /// the worker holds another task; it has children; as work, a blocker is
    /// not yet validated (or complete, when no eval validates it); as an
    /// eval, a task it validates is not ready. A refusal changes nothing and
    /// offers the first five claimable tasks, none when the worker is busy.
    /// A task the worker already holds is answered as it is; otherwise the
    /// task becomes doing, claimed by the worker at `now`, and the claim is
    /// recorded.
    pub fn try_claim_task(&mut self, task_id: &str, worker_name: &str, now: &str) -> (r: ClaimTaskResult)
        requires
            old(self).wf(),
        ensures
            final(self).wf(),
            final(self).validates@ == old(self).validates@,
            final(self).workers@ == old(self).workers@,
            r is Rejected ==> final(self).task_list() == old(self).task_list() && final(self).log@ == old(self).log@,
            ({
                let ts = old(self).task_list();
                let vs = old(self).links();
                let alts = alternatives_of(ts, vs);
                if !has_task(ts, task_id@) {
                    r matches ClaimTaskResult::Rejected { reason: ClaimRejectReason::NotFound { task_id: x }, alternatives }
                        && x@ == task_id@ && summary_views(alternatives@) == alts
                } else {
                    let k = task_pos(ts, task_id@);
                    let t = ts[k];
                    if t.status != TaskStatus::Todo && t.status != TaskStatus::Doing {
                        r matches ClaimTaskResult::Rejected { reason: ClaimRejectReason::AlreadyComplete { task_id: x, status }, alternatives }
                            && x@ == task_id@ && status == t.status && summary_views(alternatives@) == alts
                    } else if t.status == TaskStatus::Doing && t.claimed_by == Some(worker_name@) {
                        r matches ClaimTaskResult::Success { task } && task@ == t
                            && final(self).task_list() == ts && final(self).log@ == old(self).log@
                    } else if t.status == TaskStatus::Doing {
                        r matches ClaimTaskResult::Rejected { reason: ClaimRejectReason::ClaimedByOther { task_id: x, claimed_by }, alternatives }
                            && x@ == task_id@ && claimed_by@ == (match t.claimed_by { Some(c) => c, None => Seq::empty() })
                            && summary_views(alternatives@) == alts
                    } else if busy(ts, worker_name@) {
                        r matches ClaimTaskResult::Rejected { reason: ClaimRejectReason::WorkerBusy { existing_task_id }, alternatives }
                            && alternatives@.len() == 0
                            && exists|j: int| 0 <= j < ts.len() && ts[j].status == TaskStatus::Doing
                                && ts[j].claimed_by == Some(worker_name@) && #[trigger] ts[j].id == existing_task_id@
                    } else if has_children(ts, task_id@) {
                        r matches ClaimTaskResult::Rejected { reason: ClaimRejectReason::HasChildren { task_id: x, children }, alternatives }
                            && x@ == task_id@ && views(children@) == children_ids(ts, task_id@) && summary_views(alternatives@) == alts
                    } else if t.task_type == TaskType::Work && blocker_infos(ts, vs, t).len() > 0 {
                        r matches ClaimTaskResult::Rejected { reason: ClaimRejectReason::Blocked { task_id: x, blockers }, alternatives }
                            && x@ == task_id@ && blocker_views(blockers@) == blocker_infos(ts, vs, t)
                            && summary_views(alternatives@) == alts
                    } else if t.task_type == TaskType::Eval && pending_of(ts, vs, task_id@).len() > 0 {
                        r matches ClaimTaskResult::Rejected { reason: ClaimRejectReason::EvalNotReady { task_id: x, pending_tasks }, alternatives }
                            && x@ == task_id@ && summary_views(pending_tasks@) == pending_of(ts, vs, task_id@)
                            && summary_views(alternatives@) == alts
                    } else {
                        r matches ClaimTaskResult::Success { task } && task@ == claimed(t, worker_name@, now@)
                            && final(self).task_list() == ts.update(k, claimed(t, worker_name@, now@))
                            && log_views(final(self).log@) == log_views(old(self).log@).push(
                                ("task_claim"@, Some(task_id@ + " by "@ + worker_name@)))
                    }
                }
            }),
    {
        let ghost ts = self.task_list();
        let k = match self.find(task_id) {
            None => {
                let alternatives = self.alternatives();
                return ClaimTaskResult::Rejected {
                    reason: ClaimRejectReason::NotFound { task_id: task_id.to_owned() },
                    alternatives,
                };
            },
            Some(k) => k,
        };
        assert(ts[k as int] == self.tasks@[k as int]@);
        let st = self.tasks[k].status;
        if st != TaskStatus::Todo && st != TaskStatus::Doing {
            let alternatives = self.alternatives();
            return ClaimTaskResult::Rejected {
                reason: ClaimRejectReason::AlreadyComplete { task_id: task_id.to_owned(), status: st },
                alternatives,
            };
        }
        if st == TaskStatus::Doing {
            let mine = match &self.tasks[k].claimed_by {
                Some(c) => str_eq(c.as_str(), worker_name),
                None => false,
            };
            if mine {
                return ClaimTaskResult::Success { task: self.tasks[k].clone() };
            }
            let claimed_by = match &self.tasks[k].claimed_by {
                Some(c) => c.clone(),
                None => String::new(),
            };
            let alternatives = self.alternatives();
            return ClaimTaskResult::Rejected {
                reason: ClaimRejectReason::ClaimedByOther { task_id: task_id.to_owned(), claimed_by },
                alternatives,
            };
        }
        match self.held_task(worker_name) {
            Some(j) => {
                assert(ts[j as int] == self.tasks@[j as int]@);
                return ClaimTaskResult::Rejected {
                    reason: ClaimRejectReason::WorkerBusy { existing_task_id: self.tasks[j].id.clone() },
                    alternatives: Vec::new(),
                };
            },
            None => {},
        }
        if self.has_children(task_id) {
            let children = self.child_ids(task_id);
            let alternatives = self.alternatives();
            return ClaimTaskResult::Rejected {
                reason: ClaimRejectReason::HasChildren { task_id: task_id.to_owned(), children },
                alternatives,
            };
        }
        match self.tasks[k].task_type {
            TaskType::Work => {
                let blockers = self.blocker_details(k);
                if blockers.len() > 0 {
                    let alternatives = self.alternatives();
                    return ClaimTaskResult::Rejected {
                        reason: ClaimRejectReason::Blocked { task_id: task_id.to_owned(), blockers },
                        alternatives,
                    };
                }
            },
            TaskType::Eval => {
                let pending = self.pending_validates(task_id);
                if pending.len() > 0 {
                    let alternatives = self.alternatives();
                    return ClaimTaskResult::Rejected {
                        reason: ClaimRejectReason::EvalNotReady { task_id: task_id.to_owned(), pending_tasks: pending },
                        alternatives,
                    };
                }
            },
        }
        let ghost old_log = log_views(self.log@);
        let mut t = self.tasks[k].clone();
        t.status = TaskStatus::Doing;
        t.claimed_by = Some(worker_name.to_owned());
        t.claimed_at = Some(now.to_owned());
        let out = t.clone();
        self.tasks.set(k, t);
        let detail = concat3(task_id, " by ", worker_name);
        self.log.push(LogEntry { action: "task_claim".to_owned(), detail: Some(detail) });
        proof {
            let ts2 = self.task_list();
            assert(ts2 =~= ts.update(k as int, claimed(ts[k as int], worker_name@, now@)));
            assert(log_views(self.log@) =~= old_log.push(("task_claim"@, Some(task_id@ + " by "@ + worker_name@))));
            assert forall|i: int, j: int| 0 <= i < ts2.len() && 0 <= j < ts2.len() && i != j implies ts2[i].id != ts2[j].id by {
                assert(ts2[i].id == ts[i].id && ts2[j].id == ts[j].id);
            }
            assert forall|i: int, j: int| 0 <= i < ts2.len() && 0 <= j < ts2.len() && i != j
                && ts2[i].status == TaskStatus::Doing && ts2[j].status == TaskStatus::Doing && ts2[i].claimed_by is Some
                implies ts2[i].claimed_by != ts2[j].claimed_by by {
                if i == k {
                    assert(ts2[j] == ts[j]);
                } else if j == k {
                    assert(ts2[i] == ts[i]);
                } else {
                    assert(ts2[i] == ts[i] && ts2[j] == ts[j]);
                }
            }
        }
        ClaimTaskResult::Success { task: out }
    }
}

/// The contents of a worker record.
pub struct WorkerRecordView {
    pub id: i64,
    pub name: Seq<char>,
    pub pid: Option<i64>,
    pub runner_id: Option<Seq<char>>,
    pub runner_type: Option<Seq<char>>,
    pub session_id: Option<Seq<char>>,
    pub session_started_at: Option<Seq<char>>,
    pub status: WorkerStatus,
    pub work_dir: Option<Seq<char>>,
    pub waiting_thread: Option<Seq<char>>,
    pub needs_restart: bool,
    pub location: Seq<char>,
    pub last_heartbeat: Option<Seq<char>>,
    pub created_at: Seq<char>,
    pub hitl_waiting: bool,
    pub state_handle: Option<Seq<char>>,
    pub assigned_task_id: Option<Seq<char>>,
    pub last_task_id: Option<Seq<char>>,
}

impl View for Worker {
    type V = WorkerRecordView;

    open spec fn view(&self) -> WorkerRecordView {
        WorkerRecordView {
            id: self.id,
            name: self.name@,
            pid: self.pid,
            runner_id: opt_view(self.runner_id),
            runner_type: opt_view(self.runner_type),
            session_id: opt_view(self.session_id),
            session_started_at: opt_view(self.session_started_at),
            status: self.status,
            work_dir: opt_view(self.work_dir),
            waiting_thread: opt_view(self.waiting_thread),
            needs_restart: self.needs_restart,
            location: self.location@,
            last_heartbeat: opt_view(self.last_heartbeat),
            created_at: self.created_at@,
            hitl_waiting: self.hitl_waiting,
            state_handle: opt_view(self.state_handle),
            assigned_task_id: opt_view(self.assigned_task_id),
            last_task_id: opt_view(self.last_task_id),
        }
    }
}

/// The contents of a sequence of workers.
pub open spec fn worker_views(ws: Seq<Worker>) -> Seq<WorkerRecordView> {
    ws.map_values(|w: Worker| w@)
}

/// The text an optional column takes when an update clears it: the column
/// keeps an empty text.
pub open spec fn cleared(x: Option<Option<String>>, current: Option<Seq<char>>) -> Option<Seq<char>> {
    match x {
        Some(Some(v)) => Some(v@),
        Some(None) => Some(Seq::empty()),
        None => current,
    }
}

/// A new value for an optional text column, when one is given.
pub open spec fn given_text(x: Option<String>, current: Option<Seq<char>>) -> Option<Seq<char>> {
    match x {
        Some(v) => Some(v@),
        None => current,
    }
}

/// The worker `w` after the update `u` at `now`: each field that is given is
/// written; a new session also stamps its start; a cleared state handle or
/// task column keeps an empty text.
pub open spec fn worker_updated(w: WorkerRecordView, u: WorkerUpdate, now: Seq<char>) -> WorkerRecordView {
    WorkerRecordView {
        pid: match u.pid { Some(p) => Some(p), None => w.pid },
        runner_id: given_text(u.runner_id, w.runner_id),
        runner_type: given_text(u.runner_type, w.runner_type),
        session_id: given_text(u.session_id, w.session_id),
        session_started_at: if u.session_id is Some { Some(now) } else { w.session_started_at },
        status: match u.status { Some(s) => s, None => w.status },
        waiting_thread: given_text(u.waiting_thread, w.waiting_thread),
        needs_restart: match u.needs_restart { Some(b) => b, None => w.needs_restart },
        last_heartbeat: given_text(u.last_heartbeat, w.last_heartbeat),
        hitl_waiting: match u.hitl_waiting { Some(b) => b, None => w.hitl_waiting },
        state_handle: cleared(u.state_handle, w.state_handle),
        assigned_task_id: cleared(u.assigned_task_id, w.assigned_task_id),
        last_task_id: cleared(u.last_task_id, w.last_task_id),
        ..w
    }
}

/// The status of the worker `name`, if there is one: that of the first with
/// the name.
pub open spec fn worker_status_of(ws: Seq<WorkerRecordView>, name: Seq<char>) -> Option<WorkerStatus>
    decreases ws.len(),
{
    if ws.len() == 0 {
        None
    } else if ws[0].name == name {
        Some(ws[0].status)
    } else {
        worker_status_of(ws.drop_first(), name)
    }
}

/// The history an update of worker `name` writes: a status change, when the
/// update sets a status other than the worker's (or the worker is missing).
pub open spec fn update_log(ws: Seq<WorkerRecordView>, name: Seq<char>, u: WorkerUpdate) -> Seq<(Seq<char>, Option<Seq<char>>)> {
    match u.status {
        Some(s) => if worker_status_of(ws, name) != Some(s) {
            seq![("worker_status"@, Some(name + " \u{2192} "@ + s.name()))]
        } else {
            Seq::empty()
        },
        None => Seq::empty(),
    }
}

/// `o` as an optional text.
fn opt_text(o: &Option<String>) -> (r: Option<String>)
    ensures
        opt_view(r) == opt_view(*o),
{
    clone_opt(o)
}

/// The text kept for a column an update sets or clears.
fn cleared_text(x: &Option<String>) -> (r: String)
    ensures
        r@ == match x { Some(v) => v@, None => Seq::<char>::empty() },
{
    match x {
        Some(v) => v.clone(),
        None => String::new(),
    }
}

/// The status of the first worker named `name`.
fn first_worker_status(ws: &Vec<Worker>, name: &str) -> (r: Option<WorkerStatus>)
    ensures
        r == worker_status_of(worker_views(ws@), name@),
{
    let ghost all = worker_views(ws@);
    let mut i: usize = 0;
    assert(all.skip(0) =~= all);
    while i < ws.len()
        invariant
            i <= ws.len(),
            all == worker_views(ws@),
            worker_status_of(all, name@) == worker_status_of(all.skip(i as int), name@),
        decreases ws.len() - i,
    {
        let ghost rest = all.skip(i as int);
        assert(rest[0] == ws@[i as int]@);
        assert(rest.drop_first() =~= all.skip(i as int + 1));
        if str_eq(ws[i].name.as_str(), name) {
            return Some(ws[i].status);
        }
        i = i + 1;
    }
    assert(all.skip(i as int).len() == 0);
    None
}

/// The worker `w0` after the update `u` at `now`.
#[verifier::rlimit(50)]
fn updated_worker(w0: &Worker, u: &WorkerUpdate, now: &str) -> (r: Worker)
    ensures
        r@ == worker_updated(w0@, *u, now@),
{
    let mut w = Worker {
        id: w0.id,
        name: w0.name.clone(),
        pid: w0.pid,
        runner_id: opt_text(&w0.runner_id),
        runner_type: opt_text(&w0.runner_type),
        session_id: opt_text(&w0.session_id),
        session_started_at: opt_text(&w0.session_started_at),
        status: w0.status,
        work_dir: opt_text(&w0.work_dir),
        waiting_thread: opt_text(&w0.waiting_thread),
        needs_restart: w0.needs_restart,
        location: w0.location.clone(),
        last_heartbeat: opt_text(&w0.last_heartbeat),
        created_at: w0.created_at.clone(),
        hitl_waiting: w0.hitl_waiting,
        state_handle: opt_text(&w0.state_handle),
        assigned_task_id: opt_text(&w0.assigned_task_id),
        last_task_id: opt_text(&w0.last_task_id),
    };
    if let Some(p) = u.pid {
        w.pid = Some(p);
    }
    if let Some(x) = &u.runner_id {
        w.runner_id = Some(x.clone());
    }
    if let Some(x) = &u.runner_type {
        w.runner_type = Some(x.clone());
    }
    if let Some(x) = &u.session_id {
        w.session_id = Some(x.clone());
        w.session_started_at = Some(now.to_owned());
    }
    if let Some(st) = u.status {
        w.status = st;
    }
    if let Some(x) = &u.waiting_thread {
        w.waiting_thread = Some(x.clone());
    }
    if let Some(b) = u.needs_restart {
        w.needs_restart = b;
    }
    if let Some(x) = &u.last_heartbeat {
        w.last_heartbeat = Some(x.clone());
    }
    if let Some(b) = u.hitl_waiting {
        w.hitl_waiting = b;
    }
    if let Some(x) = &u.state_handle {
        w.state_handle = Some(cleared_text(x));
    }
    if let Some(x) = &u.assigned_task_id {
        w.assigned_task_id = Some(cleared_text(x));
    }
    if let Some(x) = &u.last_task_id {
        w.last_task_id = Some(cleared_text(x));
    }
    w
}

impl RunTasks {
    /// Applies the update `u` to the workers named `name`, at `now`: each
    /// given field is written (a new session is stamped with `now`; a
    /// cleared state handle or task column keeps an empty text), and a
    /// status that differs from the worker's is recorded in the history.
    /// An update that names no worker changes no worker.
    pub fn apply_worker_update(&mut self, name: &str, u: WorkerUpdate, now: &str)
        ensures
            worker_views(final(self).workers@) == worker_views(old(self).workers@).map_values(
                |w: WorkerRecordView| if w.name == name@ { worker_updated(w, u, now@) } else { w }),
            log_views(final(self).log@) == log_views(old(self).log@) + update_log(worker_views(old(self).workers@), name@, u),
            final(self).tasks@ == old(self).tasks@,
            final(self).validates@ == old(self).validates@,
    {
        let ghost ws0 = worker_views(self.workers@);
        let ghost log0 = log_views(self.log@);
        if let Some(s) = u.status {
            let old_status = first_worker_status(&self.workers, name);
            if old_status != Some(s) {
                let detail = concat3(name, " \u{2192} ", s.as_str());
                self.log.push(LogEntry { action: "worker_status".to_owned(), detail: Some(detail) });
            }
        }
        assert(log_views(self.log@) =~= log0 + update_log(ws0, name@, u));
        let mut i: usize = 0;
        while i < self.workers.len()
            invariant
                i <= self.workers.len(),
                self.workers.len() == ws0.len(),
                forall|k: int| 0 <= k < i ==> (#[trigger] worker_views(self.workers@)[k])
                    == (if ws0[k].name == name@ { worker_updated(ws0[k], u, now@) } else { ws0[k] }),
                forall|k: int| i <= k < ws0.len() ==> (#[trigger] worker_views(self.workers@)[k]) == ws0[k],
                log_views(self.log@) == log0 + update_log(ws0, name@, u),
                self.tasks@ == old(self).tasks@,
                self.validates@ == old(self).validates@,
            decreases self.workers.len() - i,
        {
            let ghost before = self.workers@;
            assert(worker_views(before)[i as int] == before[i as int]@);
            if str_eq(self.workers[i].name.as_str(), name) {
                let w = updated_worker(&self.workers[i], &u, now);
                assert(w@ == worker_updated(ws0[i as int], u, now@));
                self.workers.set(i, w);
                proof {
                    assert forall|k: int| 0 <= k < self.workers.len() && k != i implies
                        (#[trigger] worker_views(self.workers@)[k]) == worker_views(before)[k] by {
                        assert(self.workers@[k] == before[k]);
                    }
                }
            }
            i = i + 1;
        }
        assert(worker_views(self.workers@) =~= ws0.map_values(
            |w: WorkerRecordView| if w.name == name@ { worker_updated(w, u, now@) } else { w }));
    }
}

/// Whether a character stays in the time stamp of a repair id: all but
/// `:`, `-` and `.`.
pub open spec fn stamp_char() -> spec_fn(char) -> bool {
    |c: char| c != ':' && c != '-' && c != '.'
}

/// The id of the repair task that a failed eval `eval_id` gets at `now`:
/// the eval's id, `-repair-` and the time stamp without `:`, `-` and `.`.
pub open spec fn repair_id(eval_id: Seq<char>, now: Seq<char>) -> Seq<char> {
    eval_id + "-repair-"@ + now.filter(stamp_char())
}

/// The name of the repair task for `feedback`: `Repair: ` and the first 50
/// characters of the feedback.
pub open spec fn repair_name(feedback: Seq<char>) -> Seq<char> {
    "Repair: "@ + if feedback.len() <= 50 { feedback } else { feedback.take(50) }
}

/// The repair task `id` of the failed eval `e`, created at `now`: work to
/// do, a child of the eval on the eval's board task, made by a worker.
pub open spec fn repair_task(e: FlowTaskView, id: Seq<char>, feedback: Seq<char>, now: Seq<char>) -> FlowTaskView {
    FlowTaskView {
        id,
        name: repair_name(feedback),
        status: TaskStatus::Todo,
        task_type: TaskType::Work,
        created_at: now,
        completed_at: None,
        claimed_by: None,
        claimed_at: None,
        parent_id: Some(e.id),
        blocked_by: Seq::empty(),
        eval_result: None,
        eval_feedback: None,
        board_task_id: e.board_task_id,
        source: TaskSource::Worker,
        pending_done_at: None,
        tokens_used: None,
        assigned_to: None,
        completed_by: None,
    }
}

/// The eval `e` once it failed with `feedback`: back to do, unclaimed, its
/// result and feedback kept, blocked by its repair task `repair`.
pub open spec fn failed_eval(e: FlowTaskView, repair: Seq<char>, feedback: Seq<char>) -> FlowTaskView {
    FlowTaskView {
        status: TaskStatus::Todo,
        eval_result: Some(EvalResult::Fail),
        eval_feedback: Some(feedback),
        claimed_by: None,
        claimed_at: None,
        blocked_by: e.blocked_by.push(repair),
        ..e
    }
}

/// A task after the eval `eval_id` failed: the eval itself failed, and the
/// tasks it validates that were done or awaiting it need repair.
pub open spec fn after_eval_fail(
    vs: Seq<(Seq<char>, Seq<char>)>,
    eval_id: Seq<char>,
    repair: Seq<char>,
    feedback: Seq<char>,
) -> spec_fn(FlowTaskView) -> FlowTaskView {
    |t: FlowTaskView| if t.id == eval_id {
        failed_eval(t, repair, feedback)
    } else if validated_ids(vs, eval_id).contains(t.id)
        && (t.status == TaskStatus::Done || t.status == TaskStatus::AwaitingEval) {
        FlowTaskView { status: TaskStatus::NeedsRepair, ..t }
    } else {
        t
    }
}

/// The worker `w` once it finished the task `task_id`: that task is its
/// last, and its assigned task is cleared.
pub open spec fn finished_with(w: WorkerRecordView, task_id: Seq<char>) -> WorkerRecordView {
    WorkerRecordView { last_task_id: Some(task_id), assigned_task_id: Some(Seq::empty()), ..w }
}

/// `now` without `:`, `-` and `.`.
fn stamp_of(now: &str) -> (r: String)
    ensures
        r@ == now@.filter(stamp_char()),
{
    let cs = to_chars(now);
    let mut out = String::new();
    let mut i: usize = 0;
    proof {
        reveal(Seq::filter);
        assert(now@.take(0) =~= Seq::<char>::empty());
        assert(now@.take(0).filter(stamp_char()) =~= Seq::<char>::empty());
    }
    while i < cs.len()
        invariant
            i <= cs.len(),
            cs@ == now@,
            out@ == now@.take(i as int).filter(stamp_char()),
        decreases cs.len() - i,
    {
        assert(now@.take(i as int + 1) =~= now@.take(i as int).push(cs@[i as int]));
        proof {
            now@.take(i as int).lemma_filter_push(cs@[i as int], stamp_char());
        }
        let c = cs[i];
        if c != ':' && c != '-' && c != '.' {
            push_char(&mut out, c);
        }
        i = i + 1;
    }
    assert(now@.take(cs.len() as int) =~= now@);
    out
}

impl RunTasks {
    /// Records that the eval `eval_task_id`, held by `worker_name`, failed
    /// with `feedback` at `now`, and returns the id of the repair task it
    /// creates. The eval must be there, be an eval and be held by the worker;
    /// the repair id must be new. The repair task (work to do, a child of the
    /// eval) blocks the eval, which goes back to do with its result and
    /// feedback; the tasks it validates that were done or awaiting it need
    /// repair; the failure is recorded and the worker is done with the eval.
    /// A refusal changes nothing.
    pub fn eval_fail(&mut self, eval_task_id: &str, worker_name: &str, feedback: &str, now: &str) -> (r: Result<String, StateError>)
        requires
            old(self).wf(),
        ensures
            final(self).wf(),
            final(self).validates@ == old(self).validates@,
            r is Err ==> final(self).task_list() == old(self).task_list() && final(self).log@ == old(self).log@
                && final(self).workers@ == old(self).workers@,
            ({
                let ts = old(self).task_list();
                let vs = old(self).links();
                let rid = repair_id(eval_task_id@, now@);
                if !has_task(ts, eval_task_id@) {
                    r matches Err(StateError::NotFound(m)) && m@ == "Task '"@ + eval_task_id@ + "' not found"@
                } else {
                    let e = ts[task_pos(ts, eval_task_id@)];
                    if e.task_type != TaskType::Eval {
                        r matches Err(StateError::InvalidState(m)) && m@ == "Task '"@ + eval_task_id@ + "' is not an eval task"@
                    } else if e.status != TaskStatus::Doing || e.claimed_by != Some(worker_name@) {
                        r matches Err(StateError::InvalidState(m))
                            && m@ == "Eval task '"@ + eval_task_id@ + "' is not claimed by "@ + worker_name@
                    } else if has_task(ts, rid) {
                        r matches Err(StateError::AlreadyExists(m)) && m@ == "Task '"@ + rid + "' already exists"@
                    } else {
                        &&& r matches Ok(id) && id@ == rid
                        &&& final(self).task_list() == ts.map_values(after_eval_fail(vs, eval_task_id@, rid, feedback@)).push(
                            repair_task(e, rid, feedback@, now@))
                        &&& log_views(final(self).log@) == log_views(old(self).log@).push(
                            ("eval_fail"@, Some(eval_task_id@ + " by "@ + worker_name@ + " - "@ + feedback@)))
                        &&& worker_views(final(self).workers@) == worker_views(old(self).workers@).map_values(
                            |w: WorkerRecordView| if w.name == worker_name@ { finished_with(w, eval_task_id@) } else { w })
                    }
                }
            }),
    {
        let ghost ts = self.task_list();
        let ghost vs = self.links();
        let k = match self.find(eval_task_id) {
            None => return Err(StateError::NotFound(concat3("Task '", eval_task_id, "' not found"))),
            Some(k) => k,
        };
        assert(ts[k as int] == self.tasks@[k as int]@);
        if self.tasks[k].task_type != TaskType::Eval {
            return Err(StateError::InvalidState(concat3("Task '", eval_task_id, "' is not an eval task")));
        }
        let held = self.tasks[k].status == TaskStatus::Doing && match &self.tasks[k].claimed_by {
            Some(c) => str_eq(c.as_str(), worker_name),
            None => false,
        };
        if !held {
            let head = concat3("Eval task '", eval_task_id, "' is not claimed by ");
            return Err(StateError::InvalidState(concat(head.as_str(), worker_name)));
        }
        let stamp = stamp_of(now);
        let rid = concat3(eval_task_id, "-repair-", stamp.as_str());
        if self.find(rid.as_str()).is_some() {
            return Err(StateError::AlreadyExists(concat3("Task '", rid.as_str(), "' already exists")));
        }
        let validated = self.get_validated_tasks(eval_task_id);
        let ghost f = after_eval_fail(vs, eval_task_id@, rid@, feedback@);
        let ghost e = ts[k as int];
        let mut j: usize = 0;
        while j < self.tasks.len()
            invariant
                j <= self.tasks.len(),
                self.tasks.len() == ts.len(),
                k < ts.len(),
                e == ts[k as int],
                e.id == eval_task_id@,
                tasks_wf(ts),
                views(validated@) == validated_ids(vs, eval_task_id@),
                f == after_eval_fail(vs, eval_task_id@, rid@, feedback@),
                forall|q: int| 0 <= q < j ==> (#[trigger] self.task_list()[q]) == f(ts[q]),
                forall|q: int| j <= q < ts.len() ==> (#[trigger] self.task_list()[q]) == ts[q],
                self.validates@ == old(self).validates@,
                self.log@ == old(self).log@,
                self.workers@ == old(self).workers@,
            decreases self.tasks.len() - j,
        {
            let ghost prev = self.task_list();
            assert(prev[j as int] == self.tasks@[j as int]@);
            assert(prev[j as int] == ts[j as int]);
            if j == k {
                let mut t = self.tasks[j].clone();
                t.status = TaskStatus::Todo;
                t.eval_result = Some(EvalResult::Fail);
                t.eval_feedback = Some(feedback.to_owned());
                t.claimed_by = None;
                t.claimed_at = None;
                let ghost bb = views(t.blocked_by@);
                t.blocked_by.push(rid.clone());
                assert(views(t.blocked_by@) =~= bb.push(rid@));
                assert(t@ == f(ts[j as int]));
                self.tasks.set(j, t);
            } else {
                proof {
                    if ts[j as int].id == eval_task_id@ {
                        assert(ts[k as int].id == ts[j as int].id);
                    }
                }
                let st = self.tasks[j].status;
                if (st == TaskStatus::Done || st == TaskStatus::AwaitingEval)
                    && contains_str(&validated, self.tasks[j].id.as_str()) {
                    let mut t = self.tasks[j].clone();
                    t.status = TaskStatus::NeedsRepair;
                    assert(t@ == f(ts[j as int]));
                    self.tasks.set(j, t);
                } else {
                    assert(f(ts[j as int]) == ts[j as int]);
                }
            }
            proof {
                assert(self.task_list()[j as int] == f(ts[j as int]));
                assert forall|q: int| 0 <= q < self.tasks.len() && q != j implies
                    (#[trigger] self.task_list()[q]) == prev[q] by {
                    assert(self.task_list()[q] == self.tasks@[q]@);
                }
            }
            j = j + 1;
        }
        let ghost mapped = ts.map_values(f);
        assert(self.task_list() =~= mapped);
        let head = take_chars(feedback, 50);
        assert(head@ =~= if feedback@.len() <= 50 { feedback@ } else { feedback@.take(50) });
        let rep = FlowTask {
            id: rid.clone(),
            name: concat("Repair: ", head.as_str()),
            status: TaskStatus::Todo,
            task_type: TaskType::Work,
            created_at: now.to_owned(),
            completed_at: None,
            claimed_by: None,
            claimed_at: None,
            parent_id: Some(eval_task_id.to_owned()),
            blocked_by: Vec::new(),
            eval_result: None,
            eval_feedback: None,
            board_task_id: clone_opt(&self.tasks[k].board_task_id),
            source: TaskSource::Worker,
            pending_done_at: None,
            tokens_used: None,
            assigned_to: None,
            completed_by: None,
        };
        assert(self.task_list()[k as int] == self.tasks@[k as int]@);
        assert(rep@.blocked_by =~= Seq::<Seq<char>>::empty());
        assert(rep@ == repair_task(e, rid@, feedback@, now@));
        self.tasks.push(rep);
        assert(self.task_list() =~= mapped.push(repair_task(e, rid@, feedback@, now@)));
        let ghost log0 = log_views(self.log@);
        let head = concat3(eval_task_id, " by ", worker_name);
        let detail = concat3(head.as_str(), " - ", feedback);
        self.log.push(LogEntry { action: "eval_fail".to_owned(), detail: Some(detail) });
        assert(log_views(self.log@) =~= log0.push(
            ("eval_fail"@, Some(eval_task_id@ + " by "@ + worker_name@ + " - "@ + feedback@))));
        let ghost log1 = log_views(self.log@);
        let ghost ws0 = worker_views(self.workers@);
        let mut u = WorkerUpdate::default();
        u.last_task_id = Some(Some(eval_task_id.to_owned()));
        u.assigned_task_id = Some(None);
        self.apply_worker_update(worker_name, u, now);
        assert(update_log(ws0, worker_name@, u) =~= Seq::<(Seq<char>, Option<Seq<char>>)>::empty());
        assert(log_views(self.log@) =~= log1);
        assert forall|w: WorkerRecordView| w.name == worker_name@ implies worker_updated(w, u, now@) == finished_with(w, eval_task_id@) by {}
        assert(worker_views(self.workers@) =~= ws0.map_values(
            |w: WorkerRecordView| if w.name == worker_name@ { finished_with(w, eval_task_id@) } else { w }));
        proof {
            let ts2 = self.task_list();
            assert forall|i: int, j: int| 0 <= i < ts2.len() && 0 <= j < ts2.len() && i != j implies ts2[i].id != ts2[j].id by {
                if i < ts.len() && j < ts.len() {
                    assert(ts2[i].id == ts[i].id && ts2[j].id == ts[j].id);
                } else if i < ts.len() {
                    assert(ts2[i].id == ts[i].id);
                } else {
                    assert(ts2[j].id == ts[j].id);
                }
            }
            assert forall|i: int, j: int| 0 <= i < ts2.len() && 0 <= j < ts2.len() && i != j
                && ts2[i].status == TaskStatus::Doing && ts2[j].status == TaskStatus::Doing && ts2[i].claimed_by is Some
                implies ts2[i].claimed_by != ts2[j].claimed_by by {
                assert(i < ts.len() && j < ts.len());
                assert(ts2[i] == f(ts[i]) && ts2[j] == f(ts[j]));
            }
        }
        Ok(rid)
    }
}

impl RunTasks {
    /// No tasks, eval links, workers or history.
    pub fn new() -> (r: RunTasks)
        ensures
            r.wf(),
            r.tasks@.len() == 0,
            r.validates@.len() == 0,
            r.workers@.len() == 0,
            r.log@.len() == 0,
    {
        let r = RunTasks { tasks: Vec::new(), validates: Vec::new(), workers: Vec::new(), log: Vec::new() };
        assert(r.task_list() =~= Seq::<FlowTaskView>::empty());
        r
    }

    /// The tasks, eval links and workers read back from storage, taken up
    /// when their task ids are unique and no worker holds two tasks;
    /// otherwise `InvalidState` says which.
    pub fn from_stored(tasks: Vec<FlowTask>, validates: Vec<(String, String)>, workers: Vec<Worker>) -> (r: Result<RunTasks, StateError>)
        ensures
            match r {
                Ok(x) => x.wf() && x.tasks@ == tasks@ && x.validates@ == validates@ && x.workers@ == workers@
                    && x.log@.len() == 0,
                Err(e) => !tasks_wf(tviews(tasks@)) && e matches StateError::InvalidState(_),
            },
            tasks_wf(tviews(tasks@)) ==> r is Ok,
    {
        let ghost ts = tviews(tasks@);
        let n = tasks.len();
        let mut b: usize = 0;
        while b < n
            invariant
                b <= n,
                n == tasks.len(),
                ts == tviews(tasks@),
                forall|x: int, y: int| 0 <= x < b && 0 <= y < b && x != y ==> ts[x].id != ts[y].id,
                forall|x: int, y: int| 0 <= x < b && 0 <= y < b && x != y
                    && ts[x].status == TaskStatus::Doing && ts[y].status == TaskStatus::Doing && ts[x].claimed_by is Some
                    ==> ts[x].claimed_by != ts[y].claimed_by,
            decreases n - b,
        {
            let mut a: usize = 0;
            while a < b
                invariant
                    a <= b,
                    b < n,
                    n == tasks.len(),
                    ts == tviews(tasks@),
                    forall|x: int, y: int| 0 <= x < b && 0 <= y < b && x != y ==> ts[x].id != ts[y].id,
                    forall|x: int, y: int| 0 <= x < b && 0 <= y < b && x != y
                        && ts[x].status == TaskStatus::Doing && ts[y].status == TaskStatus::Doing && ts[x].claimed_by is Some
                        ==> ts[x].claimed_by != ts[y].claimed_by,
                    forall|x: int| 0 <= x < a ==> ts[x].id != ts[b as int].id,
                    forall|x: int| 0 <= x < a && ts[x].status == TaskStatus::Doing && ts[b as int].status == TaskStatus::Doing
                        && ts[x].claimed_by is Some ==> ts[x].claimed_by != ts[b as int].claimed_by,
                decreases b - a,
            {
                assert(ts[a as int] == tasks@[a as int]@ && ts[b as int] == tasks@[b as int]@);
                if str_eq(tasks[a].id.as_str(), tasks[b].id.as_str()) {
                    return Err(StateError::InvalidState("stored tasks: a duplicate id".to_owned()));
                }
                if tasks[a].status == TaskStatus::Doing && tasks[b].status == TaskStatus::Doing {
                    let same = match (&tasks[a].claimed_by, &tasks[b].claimed_by) {
                        (Some(x), Some(y)) => str_eq(x.as_str(), y.as_str()),
                        _ => false,
                    };
                    if same {
                        return Err(StateError::InvalidState("stored tasks: a worker holding two tasks".to_owned()));
                    }
                }
                a = a + 1;
            }
            b = b + 1;
        }
        Ok(RunTasks { tasks, validates, workers, log: Vec::new() })
    }
}

/// A task after the eval `eval_id` passed at `now`: the eval is done with a
/// pass, and the tasks it validates that were done or awaiting it are
/// validated.
pub open spec fn after_eval_pass(vs: Seq<(Seq<char>, Seq<char>)>, eval_id: Seq<char>, now: Seq<char>) -> spec_fn(FlowTaskView) -> FlowTaskView {
    |t: FlowTaskView| if t.id == eval_id {
        FlowTaskView { status: TaskStatus::Done, completed_at: Some(now), eval_result: Some(EvalResult::Pass), ..t }
    } else if validated_ids(vs, eval_id).contains(t.id)
        && (t.status == TaskStatus::Done || t.status == TaskStatus::AwaitingEval) {
        FlowTaskView { status: TaskStatus::Validated, ..t }
    } else {
        t
    }
}

impl RunTasks {
    /// Records that the eval `eval_task_id`, held by `worker_name`, passed
    /// at `now`: it is done with a pass, the tasks it validates that were done
    /// or awaiting it are validated, the pass is recorded and the worker is
    /// done with the eval. The eval must be there, be an eval and be held by
    /// the worker; a refusal changes nothing.
    pub fn eval_pass(&mut self, eval_task_id: &str, worker_name: &str, now: &str) -> (r: Result<(), StateError>)
        requires
            old(self).wf(),
        ensures
            final(self).wf(),
            final(self).validates@ == old(self).validates@,
            r is Err ==> final(self).task_list() == old(self).task_list() && final(self).log@ == old(self).log@
                && final(self).workers@ == old(self).workers@,
            ({
                let ts = old(self).task_list();
                let vs = old(self).links();
                if !has_task(ts, eval_task_id@) {
                    r matches Err(StateError::NotFound(m)) && m@ == "Task '"@ + eval_task_id@ + "' not found"@
                } else {
                    let e = ts[task_pos(ts, eval_task_id@)];
                    if e.task_type != TaskType::Eval {
                        r matches Err(StateError::InvalidState(m)) && m@ == "Task '"@ + eval_task_id@ + "' is not an eval task"@
                    } else if e.status != TaskStatus::Doing || e.claimed_by != Some(worker_name@) {
                        r matches Err(StateError::InvalidState(m))
                            && m@ == "Eval task '"@ + eval_task_id@ + "' is not claimed by "@ + worker_name@
                    } else {
                        &&& r is Ok
                        &&& final(self).task_list() == ts.map_values(after_eval_pass(vs, eval_task_id@, now@))
                        &&& log_views(final(self).log@) == log_views(old(self).log@).push(
                            ("eval_pass"@, Some(eval_task_id@ + " by "@ + worker_name@)))
                        &&& worker_views(final(self).workers@) == worker_views(old(self).workers@).map_values(
                            |w: WorkerRecordView| if w.name == worker_name@ { finished_with(w, eval_task_id@) } else { w })
                    }
                }
            }),
    {
        let ghost ts = self.task_list();
        let ghost vs = self.links();
        let k = match self.find(eval_task_id) {
            None => return Err(StateError::NotFound(concat3("Task '", eval_task_id, "' not found"))),
            Some(k) => k,
        };
        assert(ts[k as int] == self.tasks@[k as int]@);
        if self.tasks[k].task_type != TaskType::Eval {
            return Err(StateError::InvalidState(concat3("Task '", eval_task_id, "' is not an eval task")));
        }
        let held = self.tasks[k].status == TaskStatus::Doing && match &self.tasks[k].claimed_by {
            Some(c) => str_eq(c.as_str(), worker_name),
            None => false,
        };
        if !held {
            let head = concat3("Eval task '", eval_task_id, "' is not claimed by ");
            return Err(StateError::InvalidState(concat(head.as_str(), worker_name)));
        }
        let validated = self.get_validated_tasks(eval_task_id);
        let ghost f = after_eval_pass(vs, eval_task_id@, now@);
        let mut j: usize = 0;
        while j < self.tasks.len()
            invariant
                j <= self.tasks.len(),
                self.tasks.len() == ts.len(),
                k < ts.len(),
                ts[k as int].id == eval_task_id@,
                tasks_wf(ts),
                views(validated@) == validated_ids(vs, eval_task_id@),
                f == after_eval_pass(vs, eval_task_id@, now@),
                forall|q: int| 0 <= q < j ==> (#[trigger] self.task_list()[q]) == f(ts[q]),
                forall|q: int| j <= q < ts.len() ==> (#[trigger] self.task_list()[q]) == ts[q],
                self.validates@ == old(self).validates@,
                self.log@ == old(self).log@,
                self.workers@ == old(self).workers@,
            decreases self.tasks.len() - j,
        {
            let ghost prev = self.task_list();
            assert(prev[j as int] == self.tasks@[j as int]@);
            assert(prev[j as int] == ts[j as int]);
            if j == k {
                let mut t = self.tasks[j].clone();
                t.status = TaskStatus::Done;
                t.completed_at = Some(now.to_owned());
                t.eval_result = Some(EvalResult::Pass);
                assert(t@ == f(ts[j as int]));
                self.tasks.set(j, t);
            } else {
                proof {
                    if ts[j as int].id == eval_task_id@ {
                        assert(ts[k as int].id == ts[j as int].id);
                    }
                }
                let st = self.tasks[j].status;
                if (st == TaskStatus::Done || st == TaskStatus::AwaitingEval)
                    && contains_str(&validated, self.tasks[j].id.as_str()) {
                    let mut t = self.tasks[j].clone();
                    t.status = TaskStatus::Validated;
                    assert(t@ == f(ts[j as int]));
                    self.tasks.set(j, t);
                } else {
                    assert(f(ts[j as int]) == ts[j as int]);
                }
            }
            proof {
                assert(self.task_list()[j as int] == f(ts[j as int]));
                assert forall|q: int| 0 <= q < self.tasks.len() && q != j implies
                    (#[trigger] self.task_list()[q]) == prev[q] by {
                    assert(self.task_list()[q] == self.tasks@[q]@);
                }
            }
            j = j + 1;
        }
        assert(self.task_list() =~= ts.map_values(f));
        let ghost log0 = log_views(self.log@);
        let detail = concat3(eval_task_id, " by ", worker_name);
        self.log.push(LogEntry { action: "eval_pass".to_owned(), detail: Some(detail) });
        assert(log_views(self.log@) =~= log0.push(("eval_pass"@, Some(eval_task_id@ + " by "@ + worker_name@))));
        let ghost log1 = log_views(self.log@);
        let ghost ws0 = worker_views(self.workers@);
        let mut u = WorkerUpdate::default();
        u.last_task_id = Some(Some(eval_task_id.to_owned()));
        u.assigned_task_id = Some(None);
        self.apply_worker_update(worker_name, u, now);
        assert(update_log(ws0, worker_name@, u) =~= Seq::<(Seq<char>, Option<Seq<char>>)>::empty());
        assert(log_views(self.log@) =~= log1);
        assert forall|w: WorkerRecordView| w.name == worker_name@ implies worker_updated(w, u, now@) == finished_with(w, eval_task_id@) by {}
        assert(worker_views(self.workers@) =~= ws0.map_values(
            |w: WorkerRecordView| if w.name == worker_name@ { finished_with(w, eval_task_id@) } else { w }));
        proof {
            let ts2 = self.task_list();
            assert forall|i: int, j: int| 0 <= i < ts2.len() && 0 <= j < ts2.len() && i != j implies ts2[i].id != ts2[j].id by {
                assert(ts2[i].id == ts[i].id && ts2[j].id == ts[j].id);
            }
            assert forall|i: int, j: int| 0 <= i < ts2.len() && 0 <= j < ts2.len() && i != j
                && ts2[i].status == TaskStatus::Doing && ts2[j].status == TaskStatus::Doing && ts2[i].claimed_by is Some
                implies ts2[i].claimed_by != ts2[j].claimed_by by {
                assert(ts2[i] == f(ts[i]) && ts2[j] == f(ts[j]));
            }
        }
        Ok(())
    }

    /// Gives back the task `task_id` that `worker_name` holds: it is to do
    /// again, unclaimed, and the release is recorded. A task that is not
    /// there, or not held by the worker, is refused and nothing changes.
    pub fn unclaim_task(&mut self, task_id: &str, worker_name: &str) -> (r: Result<(), StateError>)
        requires
            old(self).wf(),
        ensures
            final(self).wf(),
            final(self).validates@ == old(self).validates@,
            final(self).workers@ == old(self).workers@,
            r is Err ==> final(self).task_list() == old(self).task_list() && final(self).log@ == old(self).log@,
            ({
                let ts = old(self).task_list();
                if !has_task(ts, task_id@) {
                    r matches Err(StateError::NotFound(m)) && m@ == "Task '"@ + task_id@ + "' not found"@
                } else {
                    let k = task_pos(ts, task_id@);
                    let t = ts[k];
                    if t.status != TaskStatus::Doing || t.claimed_by != Some(worker_name@) {
                        r matches Err(StateError::InvalidState(m))
                            && m@ == "Task '"@ + task_id@ + "' is not claimed by "@ + worker_name@
                    } else {
                        &&& r is Ok
                        &&& final(self).task_list() == ts.update(k,
                            FlowTaskView { status: TaskStatus::Todo, claimed_by: None, claimed_at: None, ..t })
                        &&& log_views(final(self).log@) == log_views(old(self).log@).push(
                            ("task_unclaim"@, Some(task_id@ + " by "@ + worker_name@)))
                    }
                }
            }),
    {
        let ghost ts = self.task_list();
        let k = match self.find(task_id) {
            None => return Err(StateError::NotFound(concat3("Task '", task_id, "' not found"))),
            Some(k) => k,
        };
        assert(ts[k as int] == self.tasks@[k as int]@);
        let held = self.tasks[k].status == TaskStatus::Doing && match &self.tasks[k].claimed_by {
            Some(c) => str_eq(c.as_str(), worker_name),
            None => false,
        };
        if !held {
            let head = concat3("Task '", task_id, "' is not claimed by ");
            return Err(StateError::InvalidState(concat(head.as_str(), worker_name)));
        }
        let ghost log0 = log_views(self.log@);
        let mut t = self.tasks[k].clone();
        t.status = TaskStatus::Todo;
        t.claimed_by = None;
        t.claimed_at = None;
        self.tasks.set(k, t);
        let detail = concat3(task_id, " by ", worker_name);
        self.log.push(LogEntry { action: "task_unclaim".to_owned(), detail: Some(detail) });
        proof {
            let ts2 = self.task_list();
            assert(ts2 =~= ts.update(k as int, FlowTaskView { status: TaskStatus::Todo, claimed_by: None, claimed_at: None, ..ts[k as int] }));
            assert(log_views(self.log@) =~= log0.push(("task_unclaim"@, Some(task_id@ + " by "@ + worker_name@))));
            assert forall|i: int, j: int| 0 <= i < ts2.len() && 0 <= j < ts2.len() && i != j implies ts2[i].id != ts2[j].id by {
                assert(ts2[i].id == ts[i].id && ts2[j].id == ts[j].id);
            }
            assert forall|i: int, j: int| 0 <= i < ts2.len() && 0 <= j < ts2.len() && i != j
                && ts2[i].status == TaskStatus::Doing && ts2[j].status == TaskStatus::Doing && ts2[i].claimed_by is Some
                implies ts2[i].claimed_by != ts2[j].claimed_by by {
                assert(i != k && j != k);
                assert(ts2[i] == ts[i] && ts2[j] == ts[j]);
            }
        }
        Ok(())
    }
}

/// The task `t` given back: to do again, unclaimed.
pub open spec fn released(t: FlowTaskView) -> FlowTaskView {
    FlowTaskView { status: TaskStatus::Todo, claimed_by: None, claimed_at: None, ..t }
}

/// A task to do that a worker claims is then held by that worker at the
/// same place, so that worker may give it back; giving it back leaves the
/// tasks as giving it back directly would, and restores them exactly when
/// the task carried no claim before.
pub proof fn lemma_claim_then_unclaim(ts: Seq<FlowTaskView>, k: int, w: Seq<char>, now: Seq<char>)
    requires
        tasks_wf(ts),
        0 <= k < ts.len(),
        ts[k].status == TaskStatus::Todo,
    ensures
        ({
            let ts1 = ts.update(k, claimed(ts[k], w, now));
            &&& has_task(ts1, ts[k].id)
            &&& task_pos(ts1, ts[k].id) == k
            &&& ts1[k].status == TaskStatus::Doing && ts1[k].claimed_by == Some(w)
            &&& ts1.update(k, released(ts1[k])) == ts.update(k, released(ts[k]))
            &&& (ts[k].claimed_by is None && ts[k].claimed_at is None) ==> ts1.update(k, released(ts1[k])) == ts
        }),
{
    let ts1 = ts.update(k, claimed(ts[k], w, now));
    assert(ts1[k].id == ts[k].id);
    assert(has_task(ts1, ts[k].id));
    let p = task_pos(ts1, ts[k].id);
    if p != k {
        assert(ts1[p].id == ts[p].id);
    }
    assert(ts1.update(k, released(ts1[k])) =~= ts.update(k, released(ts[k])));
    if ts[k].claimed_by is None && ts[k].claimed_at is None {
        assert(released(ts[k]) == ts[k]);
        assert(ts.update(k, released(ts[k])) =~= ts);
    }
}

/// Whether every child of `id` is done.
pub open spec fn children_done(ts: Seq<FlowTaskView>, id: Seq<char>) -> bool {
    forall|k: int| 0 <= k < ts.len() && ts[k].parent_id == Some(id) ==> ts[k].status == TaskStatus::Done
}

/// The tasks and history after the parent `p` of a completed task is looked
/// at, at most `fuel` times up the tree: a parent that is there, not yet
/// done, with children all done, becomes done at `now` (recorded as
/// completed by itself), and its own parent is looked at next.
pub open spec fn complete_ancestors(ts: Seq<FlowTaskView>, p: Option<Seq<char>>, now: Seq<char>, fuel: nat)
    -> (Seq<FlowTaskView>, Seq<(Seq<char>, Option<Seq<char>>)>)
    decreases fuel,
{
    match p {
        None => (ts, Seq::empty()),
        Some(pid) => if fuel == 0 || !has_children(ts, pid) || !children_done(ts, pid) || !has_task(ts, pid)
            || ts[task_pos(ts, pid)].status == TaskStatus::Done {
            (ts, Seq::empty())
        } else {
            let k = task_pos(ts, pid);
            let ts2 = ts.update(k, FlowTaskView { status: TaskStatus::Done, completed_at: Some(now), ..ts[k] });
            let rest = complete_ancestors(ts2, ts[k].parent_id, now, (fuel - 1) as nat);
            (rest.0, seq![("task_done"@, Some(pid + " (auto-completed)"@))] + rest.1)
        },
    }
}

/// The status a task held by a worker takes when it is completed: work that
/// an eval validates awaits it; other work, and an eval, is done.
pub open spec fn completed_status(t: FlowTaskView, vs: Seq<(Seq<char>, Seq<char>)>) -> TaskStatus {
    if t.task_type == TaskType::Work && has_eval(vs, t.id) {
        TaskStatus::AwaitingEval
    } else {
        TaskStatus::Done
    }
}

/// Setting a task's status to done keeps the tasks consistent.
proof fn lemma_done_keeps_wf(ts: Seq<FlowTaskView>, k: int, t: FlowTaskView)
    requires
        tasks_wf(ts),
        0 <= k < ts.len(),
        t.id == ts[k].id,
        t.status != TaskStatus::Doing,
    ensures
        tasks_wf(ts.update(k, t)),
{
    let ts2 = ts.update(k, t);
    assert forall|i: int, j: int| 0 <= i < ts2.len() && 0 <= j < ts2.len() && i != j implies ts2[i].id != ts2[j].id by {
        assert(ts2[i].id == ts[i].id && ts2[j].id == ts[j].id);
    }
    assert forall|i: int, j: int| 0 <= i < ts2.len() && 0 <= j < ts2.len() && i != j
        && ts2[i].status == TaskStatus::Doing && ts2[j].status == TaskStatus::Doing && ts2[i].claimed_by is Some
        implies ts2[i].claimed_by != ts2[j].claimed_by by {
        assert(i != k && j != k);
        assert(ts2[i] == ts[i] && ts2[j] == ts[j]);
    }
}

impl RunTasks {
    /// Whether every child of `id` is done.
    fn all_children_done(&self, id: &str) -> (r: bool)
        ensures
            r == children_done(self.task_list(), id@),
    {
        let ghost ts = self.task_list();
        let mut i: usize = 0;
        while i < self.tasks.len()
            invariant
                i <= self.tasks.len(),
                ts == self.task_list(),
                ts.len() == self.tasks.len(),
                forall|k: int| 0 <= k < i && ts[k].parent_id == Some(id@) ==> ts[k].status == TaskStatus::Done,
            decreases self.tasks.len() - i,
        {
            assert(ts[i as int] == self.tasks@[i as int]@);
            let child = match &self.tasks[i].parent_id {
                Some(p) => str_eq(p.as_str(), id),
                None => false,
            };
            if child && self.tasks[i].status != TaskStatus::Done {
                return false;
            }
            i = i + 1;
        }
        true
    }

    /// Completes, at `now`, the ancestors of a completed task from its
    /// parent `parent` up, as `complete_ancestors` says.
    fn complete_parents(&mut self, parent: Option<String>, now: &str)
        requires
            old(self).wf(),
        ensures
            final(self).wf(),
            final(self).task_list() == complete_ancestors(old(self).task_list(), opt_view(parent), now@,
                old(self).tasks.len() as nat).0,
            log_views(final(self).log@) == log_views(old(self).log@) + complete_ancestors(old(self).task_list(),
                opt_view(parent), now@, old(self).tasks.len() as nat).1,
            final(self).validates@ == old(self).validates@,
            final(self).workers@ == old(self).workers@,
    {
        let ghost target = complete_ancestors(self.task_list(), opt_view(parent), now@, self.tasks.len() as nat);
        let ghost log0 = log_views(self.log@);
        let mut cur = parent;
        let mut fuel: usize = self.tasks.len();
        assert(log_views(self.log@) =~= log0 + Seq::<(Seq<char>, Option<Seq<char>>)>::empty());
        loop
            invariant
                self.wf(),
                target == complete_ancestors(old(self).task_list(), opt_view(parent), now@, old(self).tasks.len() as nat),
                log0 == log_views(old(self).log@),
                complete_ancestors(self.task_list(), opt_view(cur), now@, fuel as nat).0 == target.0,
                log_views(self.log@) + complete_ancestors(self.task_list(), opt_view(cur), now@, fuel as nat).1
                    == log0 + target.1,
                self.validates@ == old(self).validates@,
                self.workers@ == old(self).workers@,
            decreases fuel,
        {
            let ghost ts = self.task_list();
            let ghost curv = opt_view(cur);
            let pid = match cur {
                None => {
                    assert(complete_ancestors(ts, curv, now@, fuel as nat) == (ts, Seq::<(Seq<char>, Option<Seq<char>>)>::empty()));
                    assert(log_views(self.log@) =~= log0 + target.1);
                    return;
                },
                Some(p) => p,
            };
            assert(curv == Some(pid@));
            if fuel == 0 || !self.has_children(pid.as_str()) || !self.all_children_done(pid.as_str()) {
                assert(complete_ancestors(ts, curv, now@, fuel as nat) == (ts, Seq::<(Seq<char>, Option<Seq<char>>)>::empty()));
                assert(log_views(self.log@) =~= log0 + target.1);
                return;
            }
            let k = match self.find(pid.as_str()) {
                None => {
                    assert(complete_ancestors(ts, curv, now@, fuel as nat) == (ts, Seq::<(Seq<char>, Option<Seq<char>>)>::empty()));
                    assert(log_views(self.log@) =~= log0 + target.1);
                    return;
                },
                Some(k) => k,
            };
            assert(ts[k as int] == self.tasks@[k as int]@);
            if self.tasks[k].status == TaskStatus::Done {
                assert(complete_ancestors(ts, curv, now@, fuel as nat) == (ts, Seq::<(Seq<char>, Option<Seq<char>>)>::empty()));
                assert(log_views(self.log@) =~= log0 + target.1);
                return;
            }
            let ghost logb = log_views(self.log@);
            let mut t = self.tasks[k].clone();
            t.status = TaskStatus::Done;
            t.completed_at = Some(now.to_owned());
            let next = clone_opt(&self.tasks[k].parent_id);
            proof {
                lemma_done_keeps_wf(ts, k as int, t@);
            }
            self.tasks.set(k, t);
            let detail = concat(pid.as_str(), " (auto-completed)");
            self.log.push(LogEntry { action: "task_done".to_owned(), detail: Some(detail) });
            proof {
                assert(self.task_list() =~= ts.update(k as int,
                    FlowTaskView { status: TaskStatus::Done, completed_at: Some(now@), ..ts[k as int] }));
                let step = seq![("task_done"@, Some(pid@ + " (auto-completed)"@))];
                assert(log_views(self.log@) =~= logb + step);
                let rest = complete_ancestors(self.task_list(), opt_view(next), now@, (fuel - 1) as nat);
                assert(logb + step + rest.1 =~= logb + (step + rest.1));
            }
            cur = next;
            fuel = fuel - 1;
        }
    }

    /// Completes the task `task_id` that `worker_name` holds, at `now`: work
    /// that an eval validates awaits it, other work and an eval are done; it
    /// is marked completed by the worker, the completion is recorded, the
    /// worker is done with the task, and its ancestors whose children are now
    /// all done are completed in turn. A
    /// task that is not there, or not held by the worker, is refused and
    /// nothing changes.
    pub fn complete_task(&mut self, task_id: &str, worker_name: &str, now: &str) -> (r: Result<(), StateError>)
        requires
            old(self).wf(),
        ensures
            final(self).wf(),
            final(self).validates@ == old(self).validates@,
            r is Err ==> final(self).task_list() == old(self).task_list() && final(self).log@ == old(self).log@
                && final(self).workers@ == old(self).workers@,
            ({
                let ts = old(self).task_list();
                let vs = old(self).links();
                if !has_task(ts, task_id@) {
                    r matches Err(StateError::NotFound(m)) && m@ == "Task '"@ + task_id@ + "' not found"@
                } else {
                    let k = task_pos(ts, task_id@);
                    let t = ts[k];
                    if t.status != TaskStatus::Doing || t.claimed_by != Some(worker_name@) {
                        r matches Err(StateError::InvalidState(m))
                            && m@ == "Task '"@ + task_id@ + "' is not claimed by "@ + worker_name@
                    } else {
                        let st = completed_status(t, vs);
                        let ts1 = ts.update(k, FlowTaskView { status: st, completed_at: Some(now@),
                            completed_by: Some(worker_name@), ..t });
                        let up = complete_ancestors(ts1, t.parent_id, now@, ts.len() as nat);
                        &&& r is Ok
                        &&& final(self).task_list() == up.0
                        &&& log_views(final(self).log@) == log_views(old(self).log@).push(
                            ("task_done"@, Some(task_id@ + " by "@ + worker_name@ + " ("@ + st.name() + ")"@))) + up.1
                        &&& worker_views(final(self).workers@) == worker_views(old(self).workers@).map_values(
                            |w: WorkerRecordView| if w.name == worker_name@ { finished_with(w, task_id@) } else { w })
                    }
                }
            }),
    {
        let ghost ts = self.task_list();
        let ghost vs = self.links();
        let k = match self.find(task_id) {
            None => return Err(StateError::NotFound(concat3("Task '", task_id, "' not found"))),
            Some(k) => k,
        };
        assert(ts[k as int] == self.tasks@[k as int]@);
        let held = self.tasks[k].status == TaskStatus::Doing && match &self.tasks[k].claimed_by {
            Some(c) => str_eq(c.as_str(), worker_name),
            None => false,
        };
        if !held {
            let head = concat3("Task '", task_id, "' is not claimed by ");
            return Err(StateError::InvalidState(concat(head.as_str(), worker_name)));
        }
        let st = if self.tasks[k].task_type == TaskType::Work && self.has_validating_eval(task_id) {
            TaskStatus::AwaitingEval
        } else {
            TaskStatus::Done
        };
        let mut t = self.tasks[k].clone();
        t.status = st;
        t.completed_at = Some(now.to_owned());
        t.completed_by = Some(worker_name.to_owned());
        let parent = clone_opt(&self.tasks[k].parent_id);
        proof {
            lemma_done_keeps_wf(ts, k as int, t@);
        }
        self.tasks.set(k, t);
        let ghost ts1 = self.task_list();
        assert(ts1 =~= ts.update(k as int, FlowTaskView { status: st, completed_at: Some(now@),
            completed_by: Some(worker_name@), ..ts[k as int] }));
        let ghost log0 = log_views(self.log@);
        let head = concat3(task_id, " by ", worker_name);
        let tail = concat3(" (", st.as_str(), ")");
        let detail = concat(head.as_str(), tail.as_str());
        assert(detail@ =~= task_id@ + " by "@ + worker_name@ + " ("@ + st.name() + ")"@);
        self.log.push(LogEntry { action: "task_done".to_owned(), detail: Some(detail) });
        let ghost log1 = log_views(self.log@);
        assert(log1 =~= log0.push(("task_done"@, Some(task_id@ + " by "@ + worker_name@ + " ("@ + st.name() + ")"@))));
        let ghost ws0 = worker_views(self.workers@);
        let mut u = WorkerUpdate::default();
        u.last_task_id = Some(Some(task_id.to_owned()));
        u.assigned_task_id = Some(None);
        self.apply_worker_update(worker_name, u, now);
        assert(update_log(ws0, worker_name@, u) =~= Seq::<(Seq<char>, Option<Seq<char>>)>::empty());
        assert(log_views(self.log@) =~= log1);
        assert forall|w: WorkerRecordView| w.name == worker_name@ implies worker_updated(w, u, now@) == finished_with(w, task_id@) by {}
        let ghost ws1 = worker_views(self.workers@);
        assert(ws1 =~= ws0.map_values(
            |w: WorkerRecordView| if w.name == worker_name@ { finished_with(w, task_id@) } else { w }));
        self.complete_parents(parent, now);
        assert(worker_views(self.workers@) == ws1);
        Ok(())
    }
}


impl RunTasks {
    /// Completes the task `task_id` at `now` whoever holds it: a task that is
    /// done already is left as it is; otherwise it is done, the completion is
    /// recorded as the administrator's, and its ancestors whose children are
    /// now all done are completed in turn. A task that is not there is
    /// refused and nothing changes.
    pub fn admin_complete_task(&mut self, task_id: &str, now: &str) -> (r: Result<(), StateError>)
        requires
            old(self).wf(),
        ensures
            final(self).wf(),
            final(self).validates@ == old(self).validates@,
            final(self).workers@ == old(self).workers@,
            ({
                let ts = old(self).task_list();
                if !has_task(ts, task_id@) {
                    r matches Err(StateError::NotFound(m)) && m@ == "Task '"@ + task_id@ + "' not found"@
                        && final(self).task_list() == ts && final(self).log@ == old(self).log@
                } else {
                    let k = task_pos(ts, task_id@);
                    let t = ts[k];
                    &&& r is Ok
                    &&& t.status == TaskStatus::Done ==> final(self).task_list() == ts && final(self).log@ == old(self).log@
                    &&& t.status != TaskStatus::Done ==> ({
                        let ts1 = ts.update(k, FlowTaskView { status: TaskStatus::Done, completed_at: Some(now@), ..t });
                        let up = complete_ancestors(ts1, t.parent_id, now@, ts.len() as nat);
                        &&& final(self).task_list() == up.0
                        &&& log_views(final(self).log@) == log_views(old(self).log@).push(
                            ("task_done"@, Some(task_id@ + " (admin)"@))) + up.1
                    })
                }
            }),
    {
        let ghost ts = self.task_list();
        let k = match self.find(task_id) {
            None => return Err(StateError::NotFound(concat3("Task '", task_id, "' not found"))),
            Some(k) => k,
        };
        assert(ts[k as int] == self.tasks@[k as int]@);
        if self.tasks[k].status == TaskStatus::Done {
            return Ok(());
        }
        let mut t = self.tasks[k].clone();
        t.status = TaskStatus::Done;
        t.completed_at = Some(now.to_owned());
        let parent = clone_opt(&self.tasks[k].parent_id);
        proof {
            lemma_done_keeps_wf(ts, k as int, t@);
        }
        self.tasks.set(k, t);
        assert(self.task_list() =~= ts.update(k as int,
            FlowTaskView { status: TaskStatus::Done, completed_at: Some(now@), ..ts[k as int] }));
        let ghost log0 = log_views(self.log@);
        self.log.push(LogEntry { action: "task_done".to_owned(), detail: Some(concat(task_id, " (admin)")) });
        assert(log_views(self.log@) =~= log0.push(("task_done"@, Some(task_id@ + " (admin)"@))));
        self.complete_parents(parent, now);
        Ok(())
    }

    /// Gives back the task `task_id` whoever holds it: a task that is not
    /// doing is left as it is; otherwise it is to do again, unclaimed, and
    /// the release is recorded as the administrator's. A task that is not
    /// there is refused and nothing changes.
    pub fn admin_unclaim_task(&mut self, task_id: &str) -> (r: Result<(), StateError>)
        requires
            old(self).wf(),
        ensures
            final(self).wf(),
            final(self).validates@ == old(self).validates@,
            final(self).workers@ == old(self).workers@,
            ({
                let ts = old(self).task_list();
                if !has_task(ts, task_id@) {
                    r matches Err(StateError::NotFound(m)) && m@ == "Task '"@ + task_id@ + "' not found"@
                        && final(self).task_list() == ts && final(self).log@ == old(self).log@
                } else {
                    let k = task_pos(ts, task_id@);
                    let t = ts[k];
                    &&& r is Ok
                    &&& t.status != TaskStatus::Doing ==> final(self).task_list() == ts && final(self).log@ == old(self).log@
                    &&& t.status == TaskStatus::Doing ==> final(self).task_list() == ts.update(k, released(t))
                        && log_views(final(self).log@) == log_views(old(self).log@).push(
                            ("task_unclaim"@, Some(task_id@ + " (admin)"@)))
                }
            }),
    {
        let ghost ts = self.task_list();
        let k = match self.find(task_id) {
            None => return Err(StateError::NotFound(concat3("Task '", task_id, "' not found"))),
            Some(k) => k,
        };
        assert(ts[k as int] == self.tasks@[k as int]@);
        if self.tasks[k].status != TaskStatus::Doing {
            return Ok(());
        }
        let mut t = self.tasks[k].clone();
        t.status = TaskStatus::Todo;
        t.claimed_by = None;
        t.claimed_at = None;
        proof {
            lemma_done_keeps_wf(ts, k as int, t@);
        }
        self.tasks.set(k, t);
        assert(self.task_list() =~= ts.update(k as int, released(ts[k as int])));
        let ghost log0 = log_views(self.log@);
        self.log.push(LogEntry { action: "task_unclaim".to_owned(), detail: Some(concat(task_id, " (admin)")) });
        assert(log_views(self.log@) =~= log0.push(("task_unclaim"@, Some(task_id@ + " (admin)"@))));
        Ok(())
    }

    /// Reopens the done task `task_id`: it is to do again, unclaimed and
    /// not completed, and the reopening is recorded. A task that is not
    /// there, or not done, is refused and nothing changes.
    pub fn reopen_task(&mut self, task_id: &str) -> (r: Result<(), StateError>)
        requires
            old(self).wf(),
        ensures
            final(self).wf(),
            final(self).validates@ == old(self).validates@,
            final(self).workers@ == old(self).workers@,
            r is Err ==> final(self).task_list() == old(self).task_list() && final(self).log@ == old(self).log@,
            ({
                let ts = old(self).task_list();
                if !has_task(ts, task_id@) {
                    r matches Err(StateError::NotFound(m)) && m@ == "Task '"@ + task_id@ + "' not found"@
                } else {
                    let k = task_pos(ts, task_id@);
                    let t = ts[k];
                    if t.status != TaskStatus::Done {
                        r matches Err(StateError::InvalidState(m)) && m@ == "Task '"@ + task_id@ + "' is not done"@
                    } else {
                        &&& r is Ok
                        &&& final(self).task_list() == ts.update(k, FlowTaskView { completed_at: None, ..released(t) })
                        &&& log_views(final(self).log@) == log_views(old(self).log@).push(("task_reopen"@, Some(task_id@)))
                    }
                }
            }),
    {
        let ghost ts = self.task_list();
        let k = match self.find(task_id) {
            None => return Err(StateError::NotFound(concat3("Task '", task_id, "' not found"))),
            Some(k) => k,
        };
        assert(ts[k as int] == self.tasks@[k as int]@);
        if self.tasks[k].status != TaskStatus::Done {
            return Err(StateError::InvalidState(concat3("Task '", task_id, "' is not done")));
        }
        let mut t = self.tasks[k].clone();
        t.status = TaskStatus::Todo;
        t.claimed_by = None;
        t.claimed_at = None;
        t.completed_at = None;
        proof {
            lemma_done_keeps_wf(ts, k as int, t@);
        }
        self.tasks.set(k, t);
        assert(self.task_list() =~= ts.update(k as int, FlowTaskView { completed_at: None, ..released(ts[k as int]) }));
        let ghost log0 = log_views(self.log@);
        self.log.push(LogEntry { action: "task_reopen".to_owned(), detail: Some(task_id.to_owned()) });
        assert(log_views(self.log@) =~= log0.push(("task_reopen"@, Some(task_id@))));
        Ok(())
    }

    /// The task that `worker_name` holds, if any: the one task doing and
    /// claimed by that worker.
    pub fn get_claimed_task(&self, worker_name: &str) -> (r: Option<FlowTask>)
        requires
            self.wf(),
        ensures
            match r {
                Some(t) => exists|k: int| 0 <= k < self.task_list().len() && self.task_list()[k] == t@
                    && #[trigger] self.task_list()[k].status == TaskStatus::Doing
                    && self.task_list()[k].claimed_by == Some(worker_name@),
                None => !busy(self.task_list(), worker_name@),
            },
    {
        let ghost ts = self.task_list();
        let mut i: usize = 0;
        while i < self.tasks.len()
            invariant
                i <= self.tasks.len(),
                ts == self.task_list(),
                ts.len() == self.tasks.len(),
                forall|k: int| 0 <= k < i ==> !(ts[k].status == TaskStatus::Doing && ts[k].claimed_by == Some(worker_name@)),
            decreases self.tasks.len() - i,
        {
            assert(ts[i as int] == self.tasks@[i as int]@);
            let mine = self.tasks[i].status == TaskStatus::Doing && match &self.tasks[i].claimed_by {
                Some(c) => str_eq(c.as_str(), worker_name),
                None => false,
            };
            if mine {
                let t = self.tasks[i].clone();
                assert(ts[i as int].status == TaskStatus::Doing);
                return Some(t);
            }
            i = i + 1;
        }
        None
    }
}

/// The depth of the task `id` in the tree: one for each task met walking up
/// its parents from it, at most `fuel` steps; none when it is not there.
pub open spec fn depth_of(ts: Seq<FlowTaskView>, id: Option<Seq<char>>, fuel: nat) -> nat
    decreases fuel,
{
    match id {
        None => 0,
        Some(i) => if fuel == 0 || !has_task(ts, i) {
            0
        } else {
            1 + depth_of(ts, ts[task_pos(ts, i)].parent_id, (fuel - 1) as nat)
        },
    }
}

/// The links from the eval `eval_id` to each of `targets`.
pub open spec fn new_links(eval_id: Seq<char>, targets: Seq<Seq<char>>) -> Seq<(Seq<char>, Seq<char>)> {
    targets.map_values(|t: Seq<char>| (eval_id, t))
}

/// The task `id` as it is added at `now`: to do and unclaimed.
pub open spec fn new_task(
    id: Seq<char>,
    name: Seq<char>,
    parent: Option<Seq<char>>,
    blockers: Seq<Seq<char>>,
    task_type: TaskType,
    board: Option<Seq<char>>,
    source: TaskSource,
    now: Seq<char>,
) -> FlowTaskView {
    FlowTaskView {
        id,
        name,
        status: TaskStatus::Todo,
        task_type,
        created_at: now,
        completed_at: None,
        claimed_by: None,
        claimed_at: None,
        parent_id: parent,
        blocked_by: blockers,
        eval_result: None,
        eval_feedback: None,
        board_task_id: board,
        source,
        pending_done_at: None,
        tokens_used: None,
        assigned_to: None,
        completed_by: None,
    }
}

/// The history line of an added task: its id, name and type, then its
/// parent, blockers and validated tasks where they are given.
pub open spec fn add_detail(
    id: Seq<char>,
    name: Seq<char>,
    task_type: TaskType,
    parent: Option<Seq<char>>,
    blockers: Option<Seq<Seq<char>>>,
    validates: Option<Seq<Seq<char>>>,
) -> Seq<char> {
    id + ": "@ + name + " ("@ + task_type.name() + ")"@
        + match parent { Some(p) => " (parent: "@ + p + ")"@, None => Seq::empty() }
        + match blockers { Some(b) => " (blocked by: "@ + joined(b, ", "@) + ")"@, None => Seq::empty() }
        + match validates { Some(v) => " (validates: "@ + joined(v, ", "@) + ")"@, None => Seq::empty() }
}

/// `o` taken by the views of its strings.
pub open spec fn opt_views(o: Option<&Vec<String>>) -> Option<Seq<Seq<char>>> {
    match o {
        Some(v) => Some(views(v@)),
        None => None,
    }
}

/// Adding a task to do whose id is new keeps the tasks consistent.
proof fn lemma_add_keeps_wf(ts: Seq<FlowTaskView>, t: FlowTaskView)
    requires
        tasks_wf(ts),
        !has_task(ts, t.id),
        t.status == TaskStatus::Todo,
    ensures
        tasks_wf(ts.push(t)),
{
    let ts2 = ts.push(t);
    assert forall|i: int, j: int| 0 <= i < ts2.len() && 0 <= j < ts2.len() && i != j implies ts2[i].id != ts2[j].id by {
        if i < ts.len() && j < ts.len() {
            assert(ts2[i] == ts[i] && ts2[j] == ts[j]);
        } else if i < ts.len() {
            assert(ts2[i] == ts[i]);
        } else {
            assert(ts2[j] == ts[j]);
        }
    }
    assert forall|i: int, j: int| 0 <= i < ts2.len() && 0 <= j < ts2.len() && i != j
        && ts2[i].status == TaskStatus::Doing && ts2[j].status == TaskStatus::Doing && ts2[i].claimed_by is Some
        implies ts2[i].claimed_by != ts2[j].claimed_by by {
        assert(i < ts.len() && j < ts.len());
        assert(ts2[i] == ts[i] && ts2[j] == ts[j]);
    }
}

/// The history line of an added task, as `add_detail` says.
fn add_detail_text(
    task_id: &str,
    name: &str,
    task_type: TaskType,
    parent_id: Option<&str>,
    blocked_by: Option<&Vec<String>>,
    validates: Option<&Vec<String>>,
) -> (r: String)
    ensures
        r@ == add_detail(task_id@, name@, task_type,
            match parent_id { Some(p) => Some(p@), None => None }, opt_views(blocked_by), opt_views(validates)),
{
    let mut detail = concat3(task_id, ": ", name);
    detail = concat3(detail.as_str(), " (", task_type.as_str());
    detail = concat(detail.as_str(), ")");
    if let Some(p) = parent_id {
        detail = concat3(detail.as_str(), " (parent: ", p);
        detail = concat(detail.as_str(), ")");
    }
    if let Some(b) = blocked_by {
        let j = join(b, ", ");
        detail = concat3(detail.as_str(), " (blocked by: ", j.as_str());
        detail = concat(detail.as_str(), ")");
    }
    if let Some(v) = validates {
        let j = join(v, ", ");
        detail = concat3(detail.as_str(), " (validates: ", j.as_str());
        detail = concat(detail.as_str(), ")");
    }
    let ghost pv = match parent_id { Some(p) => Some(p@), None => None };
    assert(detail@ =~= add_detail(task_id@, name@, task_type, pv, opt_views(blocked_by), opt_views(validates)));
    detail
}

impl RunTasks {
    /// Links the eval `eval_id` to each of `targets`, in order.
    fn link_all(&mut self, eval_id: &str, targets: &Vec<String>)
        ensures
            final(self).links() == old(self).links() + new_links(eval_id@, views(targets@)),
            final(self).tasks@ == old(self).tasks@,
            final(self).workers@ == old(self).workers@,
            final(self).log@ == old(self).log@,
    {
        let ghost links0 = self.links();
        let mut i: usize = 0;
        while i < targets.len()
            invariant
                i <= targets.len(),
                self.links() == links0 + new_links(eval_id@, views(targets@).take(i as int)),
                links0 == old(self).links(),
                self.tasks@ == old(self).tasks@,
                self.workers@ == old(self).workers@,
                self.log@ == old(self).log@,
            decreases targets.len() - i,
        {
            let ghost before = self.links();
            self.validates.push((eval_id.to_owned(), targets[i].clone()));
            proof {
                assert(views(targets@).take(i as int + 1) =~= views(targets@).take(i as int).push(targets@[i as int]@));
                assert(self.links() =~= before.push((eval_id@, targets@[i as int]@)));
                assert(new_links(eval_id@, views(targets@).take(i as int + 1)) =~=
                    new_links(eval_id@, views(targets@).take(i as int)).push((eval_id@, targets@[i as int]@)));
                assert(links0 + new_links(eval_id@, views(targets@).take(i as int + 1)) =~=
                    (links0 + new_links(eval_id@, views(targets@).take(i as int))).push((eval_id@, targets@[i as int]@)));
            }
            i = i + 1;
        }
        assert(views(targets@).take(targets.len() as int) =~= views(targets@));
    }
}

impl RunTasks {
    /// The depth of the task `task_id`: how many tasks are met walking up
    /// its parents from it, at most as many steps as there are tasks; zero
    /// when it is not there.
    pub fn get_task_depth(&self, task_id: &str) -> (r: usize)
        requires
            self.wf(),
        ensures
            r == depth_of(self.task_list(), Some(task_id@), self.tasks.len() as nat),
    {
        let ghost ts = self.task_list();
        let ghost target = depth_of(ts, Some(task_id@), self.tasks.len() as nat);
        let mut cur: Option<String> = Some(task_id.to_owned());
        let mut depth: usize = 0;
        let mut fuel: usize = self.tasks.len();
        loop
            invariant
                self.wf(),
                ts == self.task_list(),
                target == depth_of(ts, Some(task_id@), self.tasks.len() as nat),
                depth + depth_of(ts, opt_view(cur), fuel as nat) == target,
                depth + fuel <= self.tasks.len(),
            decreases fuel,
        {
            let c = match cur {
                None => return depth,
                Some(c) => c,
            };
            if fuel == 0 {
                return depth;
            }
            let k = match self.find(c.as_str()) {
                None => return depth,
                Some(k) => k,
            };
            assert(ts[k as int] == self.tasks@[k as int]@);
            cur = clone_opt(&self.tasks[k].parent_id);
            depth = depth + 1;
            fuel = fuel - 1;
        }
    }

    /// Adds the task `task_id` at `now`, to do, of type `task_type`, from
    /// `source`, under the parent `parent_id`, blocked by `blocked_by` and,
    /// as an eval, validating `validates`; the addition is recorded. A parent
    /// that is not there, or at depth three or more, is refused first; then
    /// an id that is taken. A refusal changes nothing.
    pub fn add_task_with_source(
        &mut self,
        task_id: &str,
        name: &str,
        parent_id: Option<&str>,
        blocked_by: Option<&Vec<String>>,
        task_type: TaskType,
        validates: Option<&Vec<String>>,
        board_task_id: Option<&str>,
        source: TaskSource,
        now: &str,
    ) -> (r: Result<(), StateError>)
        requires
            old(self).wf(),
        ensures
            final(self).wf(),
            final(self).workers@ == old(self).workers@,
            r is Err ==> final(self).task_list() == old(self).task_list() && final(self).log@ == old(self).log@
                && final(self).validates@ == old(self).validates@,
            ({
                let ts = old(self).task_list();
                let pd = match parent_id { Some(p) => depth_of(ts, Some(p@), ts.len() as nat), None => 1 };
                if parent_id is Some && pd == 0 {
                    r matches Err(StateError::NotFound(m)) && m@ == "Parent task '"@ + parent_id.unwrap()@ + "' not found"@
                } else if parent_id is Some && pd >= 3 {
                    r matches Err(StateError::InvalidState(m))
                        && m@ == "Cannot add child to '"@ + parent_id.unwrap()@ + "': max hierarchy depth is 3"@
                } else if has_task(ts, task_id@) {
                    r matches Err(StateError::AlreadyExists(m)) && m@ == "Task '"@ + task_id@ + "' already exists"@
                } else {
                    let pv = match parent_id { Some(p) => Some(p@), None => None };
                    let bv = match blocked_by { Some(b) => views(b@), None => Seq::empty() };
                    let vv = match validates { Some(v) => views(v@), None => Seq::empty() };
                    let bd = match board_task_id { Some(b) => Some(b@), None => None };
                    &&& r is Ok
                    &&& final(self).task_list() == ts.push(new_task(task_id@, name@, pv, bv, task_type, bd, source, now@))
                    &&& final(self).links() == old(self).links() + new_links(task_id@, vv)
                    &&& log_views(final(self).log@) == log_views(old(self).log@).push(("task_add"@,
                        Some(add_detail(task_id@, name@, task_type, pv, opt_views(blocked_by), opt_views(validates)))))
                }
            }),
    {
        let ghost ts = self.task_list();
        if let Some(pid) = parent_id {
            let d = self.get_task_depth(pid);
            if d == 0 {
                return Err(StateError::NotFound(concat3("Parent task '", pid, "' not found")));
            }
            if d >= 3 {
                return Err(StateError::InvalidState(concat3("Cannot add child to '", pid, "': max hierarchy depth is 3")));
            }
        }
        if self.find(task_id).is_some() {
            return Err(StateError::AlreadyExists(concat3("Task '", task_id, "' already exists")));
        }
        let blockers = match blocked_by {
            Some(b) => clone_strings(b.as_slice()),
            None => Vec::new(),
        };
        let t = FlowTask {
            id: task_id.to_owned(),
            name: name.to_owned(),
            status: TaskStatus::Todo,
            task_type,
            created_at: now.to_owned(),
            completed_at: None,
            claimed_by: None,
            claimed_at: None,
            parent_id: match parent_id { Some(p) => Some(p.to_owned()), None => None },
            blocked_by: blockers,
            eval_result: None,
            eval_feedback: None,
            board_task_id: match board_task_id { Some(b) => Some(b.to_owned()), None => None },
            source,
            pending_done_at: None,
            tokens_used: None,
            assigned_to: None,
            completed_by: None,
        };
        let ghost pv = match parent_id { Some(p) => Some(p@), None => None };
        let ghost bv = match blocked_by { Some(b) => views(b@), None => Seq::<Seq<char>>::empty() };
        let ghost bd = match board_task_id { Some(b) => Some(b@), None => None };
        assert(t@.blocked_by =~= bv);
        assert(t@ == new_task(task_id@, name@, pv, bv, task_type, bd, source, now@));
        proof {
            lemma_add_keeps_wf(ts, t@);
        }
        self.tasks.push(t);
        assert(self.task_list() =~= ts.push(t@));
        match validates {
            Some(v) => self.link_all(task_id, v),
            None => {
                assert(new_links(task_id@, Seq::<Seq<char>>::empty()) =~= Seq::<(Seq<char>, Seq<char>)>::empty());
                assert(self.links() =~= self.links() + new_links(task_id@, Seq::<Seq<char>>::empty()));
            },
        }
        let detail = add_detail_text(task_id, name, task_type, parent_id, blocked_by, validates);
        let ghost log0 = log_views(self.log@);
        self.log.push(LogEntry { action: "task_add".to_owned(), detail: Some(detail) });
        assert(log_views(self.log@) =~= log0.push(("task_add"@,
            Some(add_detail(task_id@, name@, task_type, pv, opt_views(blocked_by), opt_views(validates))))));
        Ok(())
    }
}

impl RunTasks {
    /// Adds the work task `task_id` at `now` as a worker adds it, as
    /// `add_task_with_source` does with no validated tasks and no board task.
    pub fn add_task(
        &mut self,
        task_id: &str,
        name: &str,
        parent_id: Option<&str>,
        blocked_by: Option<&Vec<String>>,
        now: &str,
    ) -> (r: Result<(), StateError>)
        requires
            old(self).wf(),
        ensures
            final(self).wf(),
            add_outcome(*old(self), *final(self), task_id@, name@, parent_id, blocked_by, TaskType::Work, None,
                None, TaskSource::Worker, now@, r),
    {
        self.add_task_with_source(task_id, name, parent_id, blocked_by, TaskType::Work, None, None, TaskSource::Worker, now)
    }

    /// Adds the work task `task_id` at `now` from `source`, as
    /// `add_task_with_source` does with no validated tasks and no board task.
    pub fn add_task_with_source_simple(
        &mut self,
        task_id: &str,
        name: &str,
        parent_id: Option<&str>,
        blocked_by: Option<&Vec<String>>,
        source: TaskSource,
        now: &str,
    ) -> (r: Result<(), StateError>)
        requires
            old(self).wf(),
        ensures
            final(self).wf(),
            add_outcome(*old(self), *final(self), task_id@, name@, parent_id, blocked_by, TaskType::Work, None,
                None, source, now@, r),
    {
        self.add_task_with_source(task_id, name, parent_id, blocked_by, TaskType::Work, None, None, source, now)
    }

    /// Adds the task `task_id` of type `task_type` at `now` as the spec adds
    /// it, as `add_task_with_source` does.
    pub fn add_task_with_type(
        &mut self,
        task_id: &str,
        name: &str,
        parent_id: Option<&str>,
        blocked_by: Option<&Vec<String>>,
        task_type: TaskType,
        validates: Option<&Vec<String>>,
        board_task_id: Option<&str>,
        now: &str,
    ) -> (r: Result<(), StateError>)
        requires
            old(self).wf(),
        ensures
            final(self).wf(),
            add_outcome(*old(self), *final(self), task_id@, name@, parent_id, blocked_by, task_type, validates,
                board_task_id, TaskSource::Spec, now@, r),
    {
        self.add_task_with_source(task_id, name, parent_id, blocked_by, task_type, validates, board_task_id,
            TaskSource::Spec, now)
    }

    /// All tasks, in order of creation.
    pub fn get_tasks(&self) -> (r: Vec<FlowTask>)
        ensures
            tviews(r@) == self.task_list(),
    {
        clone_tasks(&self.tasks)
    }

    /// The task `task_id`, if there is one.
    pub fn get_task(&self, task_id: &str) -> (r: Option<FlowTask>)
        requires
            self.wf(),
        ensures
            match r {
                Some(t) => has_task(self.task_list(), task_id@) && t@ == self.task_list()[task_pos(self.task_list(), task_id@)],
                None => !has_task(self.task_list(), task_id@),
            },
    {
        match self.find(task_id) {
            Some(k) => {
                assert(self.task_list()[k as int] == self.tasks@[k as int]@);
                Some(self.tasks[k].clone())
            },
            None => None,
        }
    }

    /// Records that the task `task_id` is blocked by `blocker_id`, once: a
    /// blocker it already has is not added again; the blocking is recorded
    /// either way. Both tasks must be there; otherwise the one that is not
    /// is refused, the task first, and nothing changes.
    pub fn add_blocker(&mut self, task_id: &str, blocker_id: &str) -> (r: Result<(), StateError>)
        requires
            old(self).wf(),
        ensures
            final(self).wf(),
            final(self).validates@ == old(self).validates@,
            final(self).workers@ == old(self).workers@,
            r is Err ==> final(self).task_list() == old(self).task_list() && final(self).log@ == old(self).log@,
            ({
                let ts = old(self).task_list();
                if !has_task(ts, task_id@) {
                    r matches Err(StateError::NotFound(m)) && m@ == "Task '"@ + task_id@ + "' not found"@
                } else if !has_task(ts, blocker_id@) {
                    r matches Err(StateError::NotFound(m)) && m@ == "Task '"@ + blocker_id@ + "' not found"@
                } else {
                    let k = task_pos(ts, task_id@);
                    let t = ts[k];
                    &&& r is Ok
                    &&& final(self).task_list() == if t.blocked_by.contains(blocker_id@) {
                        ts
                    } else {
                        ts.update(k, FlowTaskView { blocked_by: t.blocked_by.push(blocker_id@), ..t })
                    }
                    &&& log_views(final(self).log@) == log_views(old(self).log@).push(
                        ("task_block"@, Some(task_id@ + " blocked by "@ + blocker_id@)))
                }
            }),
    {
        let ghost ts = self.task_list();
        let k = match self.find(task_id) {
            None => return Err(StateError::NotFound(concat3("Task '", task_id, "' not found"))),
            Some(k) => k,
        };
        if self.find(blocker_id).is_none() {
            return Err(StateError::NotFound(concat3("Task '", blocker_id, "' not found")));
        }
        assert(ts[k as int] == self.tasks@[k as int]@);
        let ghost bs = ts[k as int].blocked_by;
        let mut present = false;
        let mut i: usize = 0;
        while i < self.tasks[k].blocked_by.len()
            invariant
                k < self.tasks.len(),
                i <= self.tasks@[k as int].blocked_by.len(),
                bs == views(self.tasks@[k as int].blocked_by@),
                present <==> exists|j: int| 0 <= j < i && bs[j] == blocker_id@,
            decreases self.tasks@[k as int].blocked_by.len() - i,
        {
            assert(bs[i as int] == self.tasks@[k as int].blocked_by@[i as int]@);
            if str_eq(self.tasks[k].blocked_by[i].as_str(), blocker_id) {
                present = true;
            }
            assert(forall|j: int| 0 <= j < i + 1 && bs[j] == blocker_id@ ==> (0 <= j < i && bs[j] == blocker_id@) || j == i);
            i = i + 1;
        }
        assert(present <==> bs.contains(blocker_id@));
        if !present {
            let mut t = self.tasks[k].clone();
            t.blocked_by.push(blocker_id.to_owned());
            proof {
                assert(t@.blocked_by =~= bs.push(blocker_id@));
                lemma_same_claims_keep_wf(ts, k as int, t@);
            }
            self.tasks.set(k, t);
            assert(self.task_list() =~= ts.update(k as int, FlowTaskView { blocked_by: bs.push(blocker_id@), ..ts[k as int] }));
        }
        let ghost log0 = log_views(self.log@);
        self.log.push(LogEntry { action: "task_block".to_owned(), detail: Some(concat3(task_id, " blocked by ", blocker_id)) });
        assert(log_views(self.log@) =~= log0.push(("task_block"@, Some(task_id@ + " blocked by "@ + blocker_id@))));
        Ok(())
    }
}

/// Whether the blocker `b` still blocks a task of type `kind`: a work task
/// as `still_blocking` says, an eval while the blocker is there and not
/// complete.
pub open spec fn blocks_kind(ts: Seq<FlowTaskView>, vs: Seq<(Seq<char>, Seq<char>)>, kind: TaskType, b: Seq<char>) -> bool {
    if kind == TaskType::Work {
        still_blocking(ts, vs)(b)
    } else {
        blocks_eval(ts, b)
    }
}

impl RunTasks {
    /// Whether the task `task_id` is blocked: it is there and one of its
    /// blockers still blocks a task of its type. Blockers that are not there
    /// do not block here.
    pub fn is_task_blocked(&self, task_id: &str) -> (r: bool)
        requires
            self.wf(),
        ensures
            r == (has_task(self.task_list(), task_id@) && ({
                let t = self.task_list()[task_pos(self.task_list(), task_id@)];
                exists|i: int| 0 <= i < t.blocked_by.len()
                    && #[trigger] blocks_kind(self.task_list(), self.links(), t.task_type, t.blocked_by[i])
            })),
    {
        let ghost ts = self.task_list();
        let ghost vs = self.links();
        let k = match self.find(task_id) {
            None => return false,
            Some(k) => k,
        };
        assert(ts[k as int] == self.tasks@[k as int]@);
        proof {
            lemma_task_pos(ts, k as int);
        }
        let ghost t = ts[k as int];
        let kind = self.tasks[k].task_type;
        let n = self.tasks[k].blocked_by.len();
        let mut i: usize = 0;
        while i < n
            invariant
                i <= n,
                k < self.tasks.len(),
                self.wf(),
                ts == self.task_list(),
                vs == self.links(),
                t == ts[k as int],
                has_task(ts, task_id@),
                task_pos(ts, task_id@) == k,
                kind == t.task_type,
                t.blocked_by == views(self.tasks@[k as int].blocked_by@),
                n == self.tasks@[k as int].blocked_by.len(),
                forall|j: int| 0 <= j < i ==> !#[trigger] blocks_kind(ts, vs, kind, t.blocked_by[j]),
            decreases n - i,
        {
            let bid = self.tasks[k].blocked_by[i].as_str();
            assert(t.blocked_by[i as int] == bid@);
            let st = self.status_of_task(bid);
            let blocking = match st {
                None => false,
                Some(s) => if kind == TaskType::Work {
                    if self.has_validating_eval(bid) {
                        s != TaskStatus::Validated
                    } else {
                        !(s == TaskStatus::Done || s == TaskStatus::Validated)
                    }
                } else {
                    !(s == TaskStatus::Done || s == TaskStatus::Validated)
                },
            };
            assert(blocking == blocks_kind(ts, vs, kind, t.blocked_by[i as int]));
            if blocking {
                assert(blocks_kind(self.task_list(), self.links(), t.task_type, t.blocked_by[i as int]));
                return true;
            }
            i = i + 1;
        }
        false
    }

    /// The blockers of the task `task_id` that still block it as blockers
    /// of work do, in its order; none when it is not there. Blockers that are
    /// not there are left out.
    pub fn get_blockers(&self, task_id: &str) -> (r: Vec<String>)
        requires
            self.wf(),
        ensures
            views(r@) == if has_task(self.task_list(), task_id@) {
                self.task_list()[task_pos(self.task_list(), task_id@)].blocked_by.filter(
                    still_blocking(self.task_list(), self.links()))
            } else {
                Seq::empty()
            },
    {
        let ghost ts = self.task_list();
        let ghost vs = self.links();
        let k = match self.find(task_id) {
            None => {
                let v: Vec<String> = Vec::new();
                assert(views(v@) =~= Seq::<Seq<char>>::empty());
                return v;
            },
            Some(k) => k,
        };
        assert(ts[k as int] == self.tasks@[k as int]@);
        let ghost bs = ts[k as int].blocked_by;
        let ghost pred = still_blocking(ts, vs);
        let n = self.tasks[k].blocked_by.len();
        let mut out: Vec<String> = Vec::new();
        let mut i: usize = 0;
        proof {
            reveal(Seq::filter);
            assert(bs.take(0) =~= Seq::<Seq<char>>::empty());
            assert(bs.take(0).filter(pred) =~= Seq::<Seq<char>>::empty());
        }
        assert(views(out@) =~= bs.take(0).filter(pred));
        while i < n
            invariant
                i <= n,
                k < self.tasks.len(),
                self.wf(),
                ts == self.task_list(),
                vs == self.links(),
                bs == views(self.tasks@[k as int].blocked_by@),
                n == self.tasks@[k as int].blocked_by.len(),
                pred == still_blocking(ts, vs),
                views(out@) == bs.take(i as int).filter(pred),
            decreases n - i,
        {
            let ghost b = bs[i as int];
            assert(b == self.tasks@[k as int].blocked_by@[i as int]@);
            assert(bs.take(i as int + 1) =~= bs.take(i as int).push(b));
            proof {
                bs.take(i as int).lemma_filter_push(b, pred);
            }
            let bid = self.tasks[k].blocked_by[i].as_str();
            let blocking = match self.status_of_task(bid) {
                None => false,
                Some(s) => if self.has_validating_eval(bid) {
                    s != TaskStatus::Validated
                } else {
                    !(s == TaskStatus::Done || s == TaskStatus::Validated)
                },
            };
            assert(blocking == pred(b));
            if blocking {
                let ghost before = views(out@);
                out.push(bid.to_owned());
                assert(views(out@) =~= before.push(b));
            }
            i = i + 1;
        }
        assert(bs.take(n as int) =~= bs);
        out
    }
}

/// What adding the task `id` did, as `add_task_with_source` says: `before`
/// and `after` are the tasks before and after, `r` what it returned.
pub open spec fn add_outcome(
    before: RunTasks,
    after: RunTasks,
    id: Seq<char>,
    name: Seq<char>,
    parent_id: Option<&str>,
    blocked_by: Option<&Vec<String>>,
    task_type: TaskType,
    validates: Option<&Vec<String>>,
    board_task_id: Option<&str>,
    source: TaskSource,
    now: Seq<char>,
    r: Result<(), StateError>,
) -> bool {
    let ts = before.task_list();
    let pd = match parent_id { Some(p) => depth_of(ts, Some(p@), ts.len() as nat), None => 1 };
    &&& after.workers@ == before.workers@
    &&& r is Err ==> after.task_list() == ts && after.log@ == before.log@ && after.validates@ == before.validates@
    &&& if parent_id is Some && pd == 0 {
        r matches Err(StateError::NotFound(m)) && m@ == "Parent task '"@ + parent_id.unwrap()@ + "' not found"@
    } else if parent_id is Some && pd >= 3 {
        r matches Err(StateError::InvalidState(m))
            && m@ == "Cannot add child to '"@ + parent_id.unwrap()@ + "': max hierarchy depth is 3"@
    } else if has_task(ts, id) {
        r matches Err(StateError::AlreadyExists(m)) && m@ == "Task '"@ + id + "' already exists"@
    } else {
        let pv = match parent_id { Some(p) => Some(p@), None => None };
        let bv = match blocked_by { Some(b) => views(b@), None => Seq::empty() };
        let vv = match validates { Some(v) => views(v@), None => Seq::empty() };
        let bd = match board_task_id { Some(b) => Some(b@), None => None };
        &&& r is Ok
        &&& after.task_list() == ts.push(new_task(id, name, pv, bv, task_type, bd, source, now))
        &&& after.links() == before.links() + new_links(id, vv)
        &&& log_views(after.log@) == log_views(before.log@).push(("task_add"@,
            Some(add_detail(id, name, task_type, pv, opt_views(blocked_by), opt_views(validates)))))
    }
}

/// Changing a task in what does not touch its id, status or claim keeps
/// the tasks consistent.
proof fn lemma_same_claims_keep_wf(ts: Seq<FlowTaskView>, k: int, t: FlowTaskView)
    requires
        tasks_wf(ts),
        0 <= k < ts.len(),
        t.id == ts[k].id,
        t.status == ts[k].status,
        t.claimed_by == ts[k].claimed_by,
    ensures
        tasks_wf(ts.update(k, t)),
{
    let ts2 = ts.update(k, t);
    assert forall|i: int, j: int| 0 <= i < ts2.len() && 0 <= j < ts2.len() && i != j implies ts2[i].id != ts2[j].id by {
        assert(ts2[i].id == ts[i].id && ts2[j].id == ts[j].id);
    }
    assert forall|i: int, j: int| 0 <= i < ts2.len() && 0 <= j < ts2.len() && i != j
        && ts2[i].status == TaskStatus::Doing && ts2[j].status == TaskStatus::Doing && ts2[i].claimed_by is Some
        implies ts2[i].claimed_by != ts2[j].claimed_by by {
        assert(ts2[i].status == ts[i].status && ts2[j].status == ts[j].status);
        assert(ts2[i].claimed_by == ts[i].claimed_by && ts2[j].claimed_by == ts[j].claimed_by);
    }
}

/// A task to add in a batch.
#[derive(Debug)]
pub struct DeltaTaskInput {
    pub task_id: String,
    pub name: String,
    pub parent_id: Option<String>,
    pub task_type: TaskType,
    pub board_task_id: Option<String>,
    pub source: TaskSource,
    pub blocked_by: Option<Vec<String>>,
    pub validates: Option<Vec<String>>,
}

/// The contents of a task to add.
pub struct DeltaView {
    pub id: Seq<char>,
    pub name: Seq<char>,
    pub parent: Option<Seq<char>>,
    pub task_type: TaskType,
    pub board: Option<Seq<char>>,
    pub source: TaskSource,
    pub blocked_by: Seq<Seq<char>>,
    pub validates: Seq<Seq<char>>,
}

impl View for DeltaTaskInput {
    type V = DeltaView;

    open spec fn view(&self) -> DeltaView {
        DeltaView {
            id: self.task_id@,
            name: self.name@,
            parent: opt_view(self.parent_id),
            task_type: self.task_type,
            board: opt_view(self.board_task_id),
            source: self.source,
            blocked_by: match self.blocked_by { Some(b) => views(b@), None => Seq::empty() },
            validates: match self.validates { Some(v) => views(v@), None => Seq::empty() },
        }
    }
}

/// The contents of a sequence of tasks to add.
pub open spec fn delta_views(ds: Seq<DeltaTaskInput>) -> Seq<DeltaView> {
    ds.map_values(|d: DeltaTaskInput| d@)
}

/// The tasks with the task `d` added at `now` unless its id is taken.
pub open spec fn insert_new(ts: Seq<FlowTaskView>, d: DeltaView, now: Seq<char>) -> Seq<FlowTaskView> {
    if has_task(ts, d.id) {
        ts
    } else {
        ts.push(new_task(d.id, d.name, d.parent, Seq::empty(), d.task_type, d.board, d.source, now))
    }
}

/// The tasks with `b` among the blockers of the task `id`, once.
pub open spec fn block_once(ts: Seq<FlowTaskView>, id: Seq<char>, b: Seq<char>) -> Seq<FlowTaskView> {
    let k = task_pos(ts, id);
    if ts[k].blocked_by.contains(b) {
        ts
    } else {
        ts.update(k, FlowTaskView { blocked_by: ts[k].blocked_by.push(b), ..ts[k] })
    }
}

/// The tasks with each of `bs` among the blockers of the task `id`, once.
pub open spec fn block_all(ts: Seq<FlowTaskView>, id: Seq<char>, bs: Seq<Seq<char>>) -> Seq<FlowTaskView>
    decreases bs.len(),
{
    if bs.len() == 0 {
        ts
    } else {
        block_all(block_once(ts, id, bs[0]), id, bs.drop_first())
    }
}

/// The links with the link from `e` to each of `targets`, once.
pub open spec fn link_all_once(vs: Seq<(Seq<char>, Seq<char>)>, e: Seq<char>, targets: Seq<Seq<char>>) -> Seq<(Seq<char>, Seq<char>)>
    decreases targets.len(),
{
    if targets.len() == 0 {
        vs
    } else {
        let vs1 = if vs.contains((e, targets[0])) { vs } else { vs.push((e, targets[0])) };
        link_all_once(vs1, e, targets.drop_first())
    }
}

/// How a batch ends: the tasks and links after it, or the refusal of a
/// parent (`true` when it is not there, `false` when it is too deep) with
/// its message.
pub open spec fn run_batch(
    ts: Seq<FlowTaskView>,
    vs: Seq<(Seq<char>, Seq<char>)>,
    ds: Seq<DeltaView>,
    now: Seq<char>,
) -> Result<(Seq<FlowTaskView>, Seq<(Seq<char>, Seq<char>)>), (bool, Seq<char>)>
    decreases ds.len(),
{
    if ds.len() == 0 {
        Ok((ts, vs))
    } else {
        let d = ds[0];
        let dep = match d.parent { Some(p) => depth_of(ts, Some(p), ts.len() as nat), None => 1 };
        if d.parent is Some && dep == 0 {
            Err((true, "Parent task '"@ + d.parent.unwrap() + "' not found"@))
        } else if d.parent is Some && dep >= 3 {
            Err((false, "Cannot add child to '"@ + d.parent.unwrap() + "': max hierarchy depth is 3"@))
        } else {
            run_batch(block_all(insert_new(ts, d, now), d.id, d.blocked_by),
                link_all_once(vs, d.id, d.validates), ds.drop_first(), now)
        }
    }
}

/// The history lines of a batch: one per task given, in order.
pub open spec fn batch_log(ds: Seq<DeltaView>) -> Seq<(Seq<char>, Option<Seq<char>>)> {
    ds.map_values(|d: DeltaView| ("task_add"@, Some(d.id + ": "@ + d.name + " ("@ + d.task_type.name() + ")"@)))
}

/// Copies of the tasks `ts`.
fn clone_tasks(ts: &Vec<FlowTask>) -> (r: Vec<FlowTask>)
    ensures
        tviews(r@) == tviews(ts@),
{
    let mut out: Vec<FlowTask> = Vec::new();
    let mut i: usize = 0;
    while i < ts.len()
        invariant
            i <= ts.len(),
            tviews(out@) == tviews(ts@).take(i as int),
        decreases ts.len() - i,
    {
        let c = ts[i].clone();
        let ghost before = tviews(out@);
        out.push(c);
        assert(tviews(out@) =~= before.push(ts@[i as int]@));
        assert(tviews(ts@).take(i as int + 1) =~= tviews(ts@).take(i as int).push(ts@[i as int]@));
        i = i + 1;
    }
    assert(tviews(ts@).take(ts.len() as int) =~= tviews(ts@));
    out
}

/// Copies of the links `vs`.
fn clone_links(vs: &Vec<(String, String)>) -> (r: Vec<(String, String)>)
    ensures
        link_views(r@) == link_views(vs@),
{
    let mut out: Vec<(String, String)> = Vec::new();
    let mut i: usize = 0;
    while i < vs.len()
        invariant
            i <= vs.len(),
            link_views(out@) == link_views(vs@).take(i as int),
        decreases vs.len() - i,
    {
        let a = vs[i].0.clone();
        let b = vs[i].1.clone();
        let ghost before = link_views(out@);
        out.push((a, b));
        assert(link_views(out@) =~= before.push((vs@[i as int].0@, vs@[i as int].1@)));
        assert(link_views(vs@).take(i as int + 1) =~= link_views(vs@).take(i as int).push((vs@[i as int].0@, vs@[i as int].1@)));
        i = i + 1;
    }
    assert(link_views(vs@).take(vs.len() as int) =~= link_views(vs@));
    out
}

impl RunTasks {
    /// Adds `b` to the blockers of the task at `k`, unless it is there.
    fn block_at(&mut self, k: usize, b: &str)
        requires
            old(self).wf(),
            k < old(self).tasks.len(),
        ensures
            final(self).wf(),
            final(self).tasks.len() == old(self).tasks.len(),
            ({
                let ts = old(self).task_list();
                final(self).task_list() == if ts[k as int].blocked_by.contains(b@) {
                    ts
                } else {
                    ts.update(k as int, FlowTaskView { blocked_by: ts[k as int].blocked_by.push(b@), ..ts[k as int] })
                }
            }),
            final(self).validates@ == old(self).validates@,
            final(self).workers@ == old(self).workers@,
            final(self).log@ == old(self).log@,
    {
        let ghost ts = self.task_list();
        assert(ts[k as int] == self.tasks@[k as int]@);
        let ghost bs = ts[k as int].blocked_by;
        let mut present = false;
        let mut i: usize = 0;
        while i < self.tasks[k].blocked_by.len()
            invariant
                k < self.tasks.len(),
                i <= self.tasks@[k as int].blocked_by.len(),
                bs == views(self.tasks@[k as int].blocked_by@),
                present <==> exists|j: int| 0 <= j < i && bs[j] == b@,
            decreases self.tasks@[k as int].blocked_by.len() - i,
        {
            assert(bs[i as int] == self.tasks@[k as int].blocked_by@[i as int]@);
            if str_eq(self.tasks[k].blocked_by[i].as_str(), b) {
                present = true;
            }
            assert(forall|j: int| 0 <= j < i + 1 && bs[j] == b@ ==> (0 <= j < i && bs[j] == b@) || j == i);
            i = i + 1;
        }
        assert(present <==> bs.contains(b@));
        if !present {
            let mut t = self.tasks[k].clone();
            t.blocked_by.push(b.to_owned());
            proof {
                assert(t@.blocked_by =~= bs.push(b@));
                lemma_same_claims_keep_wf(ts, k as int, t@);
            }
            self.tasks.set(k, t);
            assert(self.task_list() =~= ts.update(k as int, FlowTaskView { blocked_by: bs.push(b@), ..ts[k as int] }));
        }
    }

    /// Adds the link from `e` to `t`, unless it is there.
    fn link_once(&mut self, e: &str, t: &str)
        ensures
            final(self).links() == if old(self).links().contains((e@, t@)) {
                old(self).links()
            } else {
                old(self).links().push((e@, t@))
            },
            final(self).tasks@ == old(self).tasks@,
            final(self).workers@ == old(self).workers@,
            final(self).log@ == old(self).log@,
    {
        let ghost vs = self.links();
        let mut i: usize = 0;
        while i < self.validates.len()
            invariant
                i <= self.validates.len(),
                vs == self.links(),
                vs.len() == self.validates.len(),
                forall|j: int| 0 <= j < i ==> vs[j] != (e@, t@),
            decreases self.validates.len() - i,
        {
            assert(vs[i as int] == (self.validates@[i as int].0@, self.validates@[i as int].1@));
            if str_eq(self.validates[i].0.as_str(), e) && str_eq(self.validates[i].1.as_str(), t) {
                assert(vs[i as int] == (e@, t@));
                return;
            }
            i = i + 1;
        }
        assert(!vs.contains((e@, t@)));
        self.validates.push((e.to_owned(), t.to_owned()));
        assert(self.links() =~= vs.push((e@, t@)));
    }

    /// Adds the task `d` at `now` unless its id is taken, then its
    /// blockers and links, each once.
    fn add_delta(&mut self, d: &DeltaTaskInput, now: &str)
        requires
            old(self).wf(),
        ensures
            final(self).wf(),
            final(self).task_list() == block_all(insert_new(old(self).task_list(), d@, now@), d@.id, d@.blocked_by),
            final(self).links() == link_all_once(old(self).links(), d@.id, d@.validates),
            final(self).workers@ == old(self).workers@,
            final(self).log@ == old(self).log@,
    {
        let ghost ts = self.task_list();
        let k = match self.find(d.task_id.as_str()) {
            Some(k) => {
                assert(insert_new(ts, d@, now@) == ts);
                k
            },
            None => {
                let t = FlowTask {
                    id: d.task_id.clone(),
                    name: d.name.clone(),
                    status: TaskStatus::Todo,
                    task_type: d.task_type,
                    created_at: now.to_owned(),
                    completed_at: None,
                    claimed_by: None,
                    claimed_at: None,
                    parent_id: clone_opt(&d.parent_id),
                    blocked_by: Vec::new(),
                    eval_result: None,
                    eval_feedback: None,
                    board_task_id: clone_opt(&d.board_task_id),
                    source: d.source,
                    pending_done_at: None,
                    tokens_used: None,
                    assigned_to: None,
                    completed_by: None,
                };
                assert(t@.blocked_by =~= Seq::<Seq<char>>::empty());
                assert(t@ == new_task(d@.id, d@.name, d@.parent, Seq::empty(), d@.task_type, d@.board, d@.source, now@));
                proof {
                    lemma_add_keeps_wf(ts, t@);
                }
                self.tasks.push(t);
                assert(self.task_list() =~= insert_new(ts, d@, now@));
                let k = self.tasks.len() - 1;
                proof {
                    lemma_task_pos(self.task_list(), k as int);
                }
                k
            },
        };
        let ghost ts1 = self.task_list();
        proof {
            lemma_task_pos(ts1, k as int);
        }
        assert(ts1[k as int].id == d@.id);
        if let Some(bs) = &d.blocked_by {
            let ghost all = views(bs@);
            let mut i: usize = 0;
            assert(all.subrange(0, all.len() as int) =~= all);
            while i < bs.len()
                invariant
                    self.wf(),
                    i <= bs.len(),
                    all == views(bs@),
                    k < self.tasks.len(),
                    self.task_list()[k as int].id == d@.id,
                    block_all(self.task_list(), d@.id, all.subrange(i as int, all.len() as int))
                        == block_all(ts1, d@.id, all),
                    self.links() == old(self).links(),
                    self.workers@ == old(self).workers@,
                    self.log@ == old(self).log@,
                decreases bs.len() - i,
            {
                let ghost cur = self.task_list();
                proof {
                    lemma_task_pos(cur, k as int);
                }
                let ghost rest = all.subrange(i as int, all.len() as int);
                assert(rest[0] == bs@[i as int]@);
                assert(rest.drop_first() =~= all.subrange(i as int + 1, all.len() as int));
                self.block_at(k, bs[i].as_str());
                assert(self.task_list() == block_once(cur, d@.id, rest[0]));
                assert(self.task_list()[k as int].id == d@.id);
                i = i + 1;
            }
            assert(all.subrange(bs.len() as int, all.len() as int) =~= Seq::<Seq<char>>::empty());
            assert(d@.blocked_by == all);
        } else {
            assert(d@.blocked_by =~= Seq::<Seq<char>>::empty());
        }
        assert(self.task_list() == block_all(ts1, d@.id, d@.blocked_by));
        let ghost vs0 = self.links();
        let ghost tasks1 = self.tasks@;
        if let Some(vs) = &d.validates {
            let ghost all = views(vs@);
            let mut i: usize = 0;
            assert(all.subrange(0, all.len() as int) =~= all);
            while i < vs.len()
                invariant
                    i <= vs.len(),
                    all == views(vs@),
                    link_all_once(self.links(), d@.id, all.subrange(i as int, all.len() as int))
                        == link_all_once(vs0, d@.id, all),
                    self.tasks@ == tasks1,
                    self.workers@ == old(self).workers@,
                    self.log@ == old(self).log@,
                decreases vs.len() - i,
            {
                let ghost rest = all.subrange(i as int, all.len() as int);
                assert(rest[0] == vs@[i as int]@);
                assert(rest.drop_first() =~= all.subrange(i as int + 1, all.len() as int));
                self.link_once(d.task_id.as_str(), vs[i].as_str());
                i = i + 1;
            }
            assert(all.subrange(vs.len() as int, all.len() as int) =~= Seq::<Seq<char>>::empty());
            assert(d@.validates == all);
        } else {
            assert(d@.validates =~= Seq::<Seq<char>>::empty());
        }
    }
}

impl RunTasks {
    /// Adds the tasks `tasks` at `now` as one batch, in order: a task whose
    /// id is taken is not added again, and blockers and validated tasks are
    /// recorded once each, on the task of that id. A parent that is not
    /// there, or at depth three or more, when its task comes refuses the
    /// whole batch and nothing changes; otherwise each task given is
    /// recorded as added.
    pub fn add_tasks_batch(&mut self, tasks: &Vec<DeltaTaskInput>, now: &str) -> (r: Result<(), StateError>)
        requires
            old(self).wf(),
        ensures
            final(self).wf(),
            final(self).workers@ == old(self).workers@,
            match run_batch(old(self).task_list(), old(self).links(), delta_views(tasks@), now@) {
                Ok(after) => r is Ok && final(self).task_list() == after.0 && final(self).links() == after.1
                    && log_views(final(self).log@) == log_views(old(self).log@) + batch_log(delta_views(tasks@)),
                Err(refusal) => final(self).task_list() == old(self).task_list()
                    && final(self).links() == old(self).links() && final(self).log@ == old(self).log@
                    && if refusal.0 {
                        r matches Err(StateError::NotFound(m)) && m@ == refusal.1
                    } else {
                        r matches Err(StateError::InvalidState(m)) && m@ == refusal.1
                    },
            },
    {
        let ghost ds = delta_views(tasks@);
        let ghost target = run_batch(self.task_list(), self.links(), ds, now@);
        let mut tmp = RunTasks {
            tasks: clone_tasks(&self.tasks),
            validates: clone_links(&self.validates),
            workers: Vec::new(),
            log: Vec::new(),
        };
        assert(ds.subrange(0, ds.len() as int) =~= ds);
        let mut i: usize = 0;
        while i < tasks.len()
            invariant
                i <= tasks.len(),
                ds == delta_views(tasks@),
                tmp.wf(),
                target == run_batch(old(self).task_list(), old(self).links(), ds, now@),
                run_batch(tmp.task_list(), tmp.links(), ds.subrange(i as int, ds.len() as int), now@) == target,
                *self == *old(self),
                self.wf(),
            decreases tasks.len() - i,
        {
            let ghost rest = ds.subrange(i as int, ds.len() as int);
            assert(rest[0] == tasks@[i as int]@);
            assert(rest.drop_first() =~= ds.subrange(i as int + 1, ds.len() as int));
            let d = &tasks[i];
            if let Some(pid) = &d.parent_id {
                let dep = tmp.get_task_depth(pid.as_str());
                if dep == 0 {
                    return Err(StateError::NotFound(concat3("Parent task '", pid.as_str(), "' not found")));
                }
                if dep >= 3 {
                    return Err(StateError::InvalidState(concat3("Cannot add child to '", pid.as_str(),
                        "': max hierarchy depth is 3")));
                }
            }
            tmp.add_delta(d, now);
            i = i + 1;
        }
        assert(ds.subrange(tasks.len() as int, ds.len() as int) =~= Seq::<DeltaView>::empty());
        self.tasks = tmp.tasks;
        self.validates = tmp.validates;
        let ghost log0 = log_views(self.log@);
        let mut j: usize = 0;
        assert(log0 =~= log0 + batch_log(ds).take(0));
        while j < tasks.len()
            invariant
                j <= tasks.len(),
                ds == delta_views(tasks@),
                log_views(self.log@) == log0 + batch_log(ds).take(j as int),
                self.wf(),
                target matches Ok(after) && self.task_list() == after.0 && self.links() == after.1,
                self.workers@ == old(self).workers@,
            decreases tasks.len() - j,
        {
            let d = &tasks[j];
            assert(ds[j as int] == tasks@[j as int]@);
            let head = concat3(d.task_id.as_str(), ": ", d.name.as_str());
            let tail = concat3(" (", d.task_type.as_str(), ")");
            let detail = concat(head.as_str(), tail.as_str());
            assert(detail@ =~= ds[j as int].id + ": "@ + ds[j as int].name + " ("@ + ds[j as int].task_type.name() + ")"@);
            let ghost before = log_views(self.log@);
            self.log.push(LogEntry { action: "task_add".to_owned(), detail: Some(detail) });
            assert(log_views(self.log@) =~= before.push(batch_log(ds)[j as int]));
            assert(batch_log(ds).take(j as int + 1) =~= batch_log(ds).take(j as int).push(batch_log(ds)[j as int]));
            assert(log_views(self.log@) =~= log0 + batch_log(ds).take(j as int + 1));
            j = j + 1;
        }
        assert(batch_log(ds).take(tasks.len() as int) =~= batch_log(ds));
        Ok(())
    }
}

/// Whether walking up from the parent `p`, at most `fuel` steps, meets the
/// task `root`.
pub open spec fn under(ts: Seq<FlowTaskView>, p: Option<Seq<char>>, root: Seq<char>, fuel: nat) -> bool
    decreases fuel,
{
    match p {
        None => false,
        Some(x) => x == root || (fuel > 0 && has_task(ts, x)
            && under(ts, ts[task_pos(ts, x)].parent_id, root, (fuel - 1) as nat)),
    }
}

/// Whether deleting the task `root` deletes the task `t`: it is `root` or
/// lies under it.
pub open spec fn doomed(ts: Seq<FlowTaskView>, root: Seq<char>) -> spec_fn(FlowTaskView) -> bool {
    |t: FlowTaskView| t.id == root || under(ts, t.parent_id, root, ts.len() as nat)
}

/// Whether deleting the task `root` keeps the task `t`.
pub open spec fn spared(ts: Seq<FlowTaskView>, root: Seq<char>) -> spec_fn(FlowTaskView) -> bool {
    |t: FlowTaskView| !doomed(ts, root)(t)
}

/// Whether the blocker `b` goes when the task `root` is deleted: it is a
/// task that the deletion removes.
pub open spec fn lost_blocker(ts: Seq<FlowTaskView>, root: Seq<char>) -> spec_fn(Seq<char>) -> bool {
    |b: Seq<char>| has_task(ts, b) && doomed(ts, root)(ts[task_pos(ts, b)])
}

/// The task `t` once the deletion of `root` has taken the removed tasks
/// out of its blockers.
pub open spec fn pruned(ts: Seq<FlowTaskView>, root: Seq<char>) -> spec_fn(FlowTaskView) -> FlowTaskView {
    |t: FlowTaskView| FlowTaskView {
        blocked_by: t.blocked_by.filter(|b: Seq<char>| !lost_blocker(ts, root)(b)),
        ..t
    }
}

/// The tasks left after deleting `root`: those it spares, with the removed
/// tasks taken out of their blockers.
pub open spec fn after_delete(ts: Seq<FlowTaskView>, root: Seq<char>) -> Seq<FlowTaskView> {
    ts.filter(spared(ts, root)).map_values(pruned(ts, root))
}

/// The history line of a deletion of `root` that removed `n` tasks.
pub open spec fn deletion_detail(root: Seq<char>, n: nat) -> Seq<char> {
    if n > 1 {
        root + " (and "@ + decimal((n - 1) as nat) + " children)"@
    } else {
        root
    }
}

impl RunTasks {
    /// Whether deleting the task `root` deletes the task at `j`.
    fn is_doomed(&self, j: usize, root: &str) -> (r: bool)
        requires
            self.wf(),
            j < self.tasks.len(),
        ensures
            r == doomed(self.task_list(), root@)(self.task_list()[j as int]),
    {
        let ghost ts = self.task_list();
        assert(ts[j as int] == self.tasks@[j as int]@);
        if str_eq(self.tasks[j].id.as_str(), root) {
            return true;
        }
        let ghost target = under(ts, ts[j as int].parent_id, root@, ts.len() as nat);
        let mut cur = clone_opt(&self.tasks[j].parent_id);
        let mut fuel: usize = self.tasks.len();
        loop
            invariant
                self.wf(),
                ts == self.task_list(),
                j < self.tasks.len(),
                ts[j as int].id != root@,
                target == under(ts, ts[j as int].parent_id, root@, ts.len() as nat),
                fuel <= ts.len(),
                under(ts, opt_view(cur), root@, fuel as nat) == target,
            decreases fuel,
        {
            let c = match cur {
                None => return false,
                Some(c) => c,
            };
            if str_eq(c.as_str(), root) {
                return true;
            }
            if fuel == 0 {
                return false;
            }
            let k = match self.find(c.as_str()) {
                None => return false,
                Some(k) => k,
            };
            assert(ts[k as int] == self.tasks@[k as int]@);
            cur = clone_opt(&self.tasks[k].parent_id);
            fuel = fuel - 1;
        }
    }

    /// The blockers of the task at `k` that the deletion of `root` keeps.
    fn kept_blockers(&self, k: usize, root: &str) -> (r: Vec<String>)
        requires
            self.wf(),
            k < self.tasks.len(),
        ensures
            views(r@) == self.task_list()[k as int].blocked_by.filter(
                |b: Seq<char>| !lost_blocker(self.task_list(), root@)(b)),
    {
        let ghost ts = self.task_list();
        assert(ts[k as int] == self.tasks@[k as int]@);
        let ghost bs = ts[k as int].blocked_by;
        let ghost pred = |b: Seq<char>| !lost_blocker(ts, root@)(b);
        let n = self.tasks[k].blocked_by.len();
        let mut out: Vec<String> = Vec::new();
        let mut i: usize = 0;
        proof {
            reveal(Seq::filter);
            assert(bs.take(0) =~= Seq::<Seq<char>>::empty());
            assert(bs.take(0).filter(pred) =~= Seq::<Seq<char>>::empty());
        }
        assert(views(out@) =~= bs.take(0).filter(pred));
        while i < n
            invariant
                i <= n,
                k < self.tasks.len(),
                self.wf(),
                ts == self.task_list(),
                bs == views(self.tasks@[k as int].blocked_by@),
                n == self.tasks@[k as int].blocked_by.len(),
                pred == (|b: Seq<char>| !lost_blocker(ts, root@)(b)),
                views(out@) == bs.take(i as int).filter(pred),
            decreases n - i,
        {
            let ghost b = bs[i as int];
            assert(b == self.tasks@[k as int].blocked_by@[i as int]@);
            assert(bs.take(i as int + 1) =~= bs.take(i as int).push(b));
            proof {
                bs.take(i as int).lemma_filter_push(b, pred);
            }
            let bid = self.tasks[k].blocked_by[i].as_str();
            let lost = match self.find(bid) {
                None => false,
                Some(q) => self.is_doomed(q, root),
            };
            assert(lost == lost_blocker(ts, root@)(b));
            if !lost {
                let ghost before = views(out@);
                out.push(bid.to_owned());
                assert(views(out@) =~= before.push(b));
            }
            i = i + 1;
        }
        assert(bs.take(n as int) =~= bs);
        out
    }

    /// Deletes the task `task_id` and every task under it, takes the removed
    /// tasks out of the blockers of the others, and records the deletion with
    /// the number of tasks under it. A task that is not there,
    /// or doing, is refused; so is the deletion when a task under it is
    /// doing, naming one such task. A refusal changes nothing.
    pub fn delete_task(&mut self, task_id: &str) -> (r: Result<(), StateError>)
        requires
            old(self).wf(),
        ensures
            final(self).wf(),
            final(self).validates@ == old(self).validates@,
            final(self).workers@ == old(self).workers@,
            r is Err ==> final(self).task_list() == old(self).task_list() && final(self).log@ == old(self).log@,
            ({
                let ts = old(self).task_list();
                if !has_task(ts, task_id@) {
                    r matches Err(StateError::NotFound(m)) && m@ == "Task '"@ + task_id@ + "' not found"@
                } else if ts[task_pos(ts, task_id@)].status == TaskStatus::Doing {
                    r matches Err(StateError::InvalidState(m))
                        && m@ == "Task '"@ + task_id@ + "' is currently claimed and cannot be deleted"@
                } else if exists|j: int| 0 <= j < ts.len() && #[trigger] doomed(ts, task_id@)(ts[j])
                    && ts[j].status == TaskStatus::Doing {
                    exists|j: int| 0 <= j < ts.len() && #[trigger] doomed(ts, task_id@)(ts[j])
                        && ts[j].status == TaskStatus::Doing && (r matches Err(StateError::InvalidState(m))
                        && m@ == "Child task '"@ + ts[j].id + "' is currently claimed and cannot be deleted"@)
                } else {
                    &&& r is Ok
                    &&& final(self).task_list() == after_delete(ts, task_id@)
                    &&& log_views(final(self).log@) == log_views(old(self).log@).push(("task_delete"@,
                        Some(deletion_detail(task_id@, ts.filter(doomed(ts, task_id@)).len()))))
                }
            }),
    {
        let ghost ts = self.task_list();
        let k = match self.find(task_id) {
            None => return Err(StateError::NotFound(concat3("Task '", task_id, "' not found"))),
            Some(k) => k,
        };
        assert(ts[k as int] == self.tasks@[k as int]@);
        if self.tasks[k].status == TaskStatus::Doing {
            return Err(StateError::InvalidState(concat3("Task '", task_id, "' is currently claimed and cannot be deleted")));
        }
        proof {
            lemma_task_pos(ts, k as int);
        }
        let mut i: usize = 0;
        while i < self.tasks.len()
            invariant
                self.wf(),
                ts == self.task_list(),
                has_task(ts, task_id@),
                ts[task_pos(ts, task_id@)].status != TaskStatus::Doing,
                ts.len() == self.tasks.len(),
                i <= self.tasks.len(),
                forall|j: int| 0 <= j < i ==> !(#[trigger] doomed(ts, task_id@)(ts[j]) && ts[j].status == TaskStatus::Doing),
            decreases self.tasks.len() - i,
        {
            assert(ts[i as int] == self.tasks@[i as int]@);
            if self.is_doomed(i, task_id) && self.tasks[i].status == TaskStatus::Doing {
                assert(doomed(ts, task_id@)(ts[i as int]) && ts[i as int].status == TaskStatus::Doing);
                let m = concat3("Child task '", self.tasks[i].id.as_str(), "' is currently claimed and cannot be deleted");
                assert(m@ == "Child task '"@ + ts[i as int].id + "' is currently claimed and cannot be deleted"@);
                return Err(StateError::InvalidState(m));
            }
            i = i + 1;
        }
        let ghost keep = spared(ts, task_id@);
        let ghost gone = doomed(ts, task_id@);
        let mut kept: Vec<FlowTask> = Vec::new();
        let mut count: usize = 0;
        let mut i: usize = 0;
        proof {
            reveal(Seq::filter);
            assert(ts.take(0) =~= Seq::<FlowTaskView>::empty());
            assert(ts.take(0).filter(keep) =~= Seq::<FlowTaskView>::empty());
            assert(ts.take(0).filter(gone) =~= Seq::<FlowTaskView>::empty());
        }
        assert(tviews(kept@) =~= ts.take(0).filter(keep).map_values(pruned(ts, task_id@)));
        while i < self.tasks.len()
            invariant
                self.wf(),
                ts == self.task_list(),
                ts.len() == self.tasks.len(),
                i <= self.tasks.len(),
                keep == spared(ts, task_id@),
                gone == doomed(ts, task_id@),
                tviews(kept@) == ts.take(i as int).filter(keep).map_values(pruned(ts, task_id@)),
                count == ts.take(i as int).filter(gone).len(),
                count <= i,
                forall|a: int| #![trigger kept@[a]] 0 <= a < kept.len() ==> exists|b: int| 0 <= b < i
                    && #[trigger] pruned(ts, task_id@)(ts[b]) == kept@[a]@,
                tasks_wf(tviews(kept@)),
            decreases self.tasks.len() - i,
        {
            let ghost t = ts[i as int];
            assert(t == self.tasks@[i as int]@);
            assert(ts.take(i as int + 1) =~= ts.take(i as int).push(t));
            proof {
                ts.take(i as int).lemma_filter_push(t, keep);
                ts.take(i as int).lemma_filter_push(t, gone);
            }
            if self.is_doomed(i, task_id) {
                count = count + 1;
            } else {
                let ghost before = kept@;
                proof {
                    let kv = tviews(kept@);
                    assert forall|a: int| 0 <= a < kv.len() implies kv[a].id != t.id
                        && !(kv[a].status == TaskStatus::Doing && t.status == TaskStatus::Doing
                            && kv[a].claimed_by is Some && kv[a].claimed_by == t.claimed_by) by {
                        assert(kv[a] == kept@[a]@);
                        let b = choose|b: int| 0 <= b < i && #[trigger] pruned(ts, task_id@)(ts[b]) == kept@[a]@;
                        assert(b != i);
                    }
                }
                let mut c = self.tasks[i].clone();
                c.blocked_by = self.kept_blockers(i, task_id);
                let ghost pt = pruned(ts, task_id@)(t);
                assert(c@ == pt);
                kept.push(c);
                proof {
                    let kv = tviews(kept@);
                    assert(kv =~= tviews(before).push(pt));
                    assert(ts.take(i as int + 1).filter(keep).map_values(pruned(ts, task_id@)) =~=
                        ts.take(i as int).filter(keep).map_values(pruned(ts, task_id@)).push(pt));
                    assert forall|a: int| #![trigger kept@[a]] 0 <= a < kept.len() implies exists|b: int| 0 <= b < i + 1
                        && #[trigger] pruned(ts, task_id@)(ts[b]) == kept@[a]@ by {
                        if a < before.len() {
                            assert(kept@[a] == before[a]);
                            let b = choose|b: int| 0 <= b < i && #[trigger] pruned(ts, task_id@)(ts[b]) == before[a]@;
                            assert(pruned(ts, task_id@)(ts[b]) == kept@[a]@);
                        } else {
                            assert(pruned(ts, task_id@)(ts[i as int]) == kept@[a]@);
                        }
                    }
                    assert forall|x: int, y: int| 0 <= x < kv.len() && 0 <= y < kv.len() && x != y implies kv[x].id != kv[y].id by {
                        if x < before.len() && y < before.len() {
                            assert(kv[x] == tviews(before)[x] && kv[y] == tviews(before)[y]);
                        } else if x < before.len() {
                            assert(kv[x] == tviews(before)[x]);
                        } else {
                            assert(kv[y] == tviews(before)[y]);
                        }
                    }
                    assert forall|x: int, y: int| 0 <= x < kv.len() && 0 <= y < kv.len() && x != y
                        && kv[x].status == TaskStatus::Doing && kv[y].status == TaskStatus::Doing && kv[x].claimed_by is Some
                        implies kv[x].claimed_by != kv[y].claimed_by by {
                        if x < before.len() && y < before.len() {
                            assert(kv[x] == tviews(before)[x] && kv[y] == tviews(before)[y]);
                        } else if x < before.len() {
                            assert(kv[x] == tviews(before)[x]);
                        } else {
                            assert(kv[y] == tviews(before)[y]);
                        }
                    }
                }
            }
            i = i + 1;
        }
        assert(ts.take(ts.len() as int) =~= ts);
        self.tasks = kept;
        assert(self.task_list() == after_delete(ts, task_id@));
        let detail = if count > 1 {
            let n = to_decimal((count - 1) as u64);
            let head = concat3(task_id, " (and ", n.as_str());
            concat(head.as_str(), " children)")
        } else {
            task_id.to_owned()
        };
        assert(detail@ =~= deletion_detail(task_id@, ts.filter(doomed(ts, task_id@)).len()));
        let ghost log0 = log_views(self.log@);
        self.log.push(LogEntry { action: "task_delete".to_owned(), detail: Some(detail) });
        assert(log_views(self.log@) =~= log0.push(("task_delete"@,
            Some(deletion_detail(task_id@, ts.filter(doomed(ts, task_id@)).len())))));
        Ok(())
    }
}


/// Deleting a task removes exactly it and the tasks under it: no task left
/// is one the deletion removes, the task itself is gone, and every other
/// task stays, with the removed tasks taken out of its blockers.
pub proof fn lemma_delete_removes_subtree(ts: Seq<FlowTaskView>, root: Seq<char>)
    ensures
        forall|a: int| 0 <= a < after_delete(ts, root).len()
            ==> !doomed(ts, root)(#[trigger] after_delete(ts, root)[a]),
        !has_task(after_delete(ts, root), root),
        forall|i: int| 0 <= i < ts.len() && spared(ts, root)(ts[i])
            ==> #[trigger] after_delete(ts, root).contains(pruned(ts, root)(ts[i])),
{
    let keep = spared(ts, root);
    let f = ts.filter(keep);
    assert forall|a: int| 0 <= a < after_delete(ts, root).len()
        implies !doomed(ts, root)(#[trigger] after_delete(ts, root)[a]) by {
        ts.lemma_filter_pred(keep, a);
        assert(after_delete(ts, root)[a] == pruned(ts, root)(f[a]));
    }
    if has_task(after_delete(ts, root), root) {
        let a = choose|a: int| 0 <= a < after_delete(ts, root).len() && after_delete(ts, root)[a].id == root;
        assert(!doomed(ts, root)(after_delete(ts, root)[a]));
    }
    assert forall|i: int| 0 <= i < ts.len() && spared(ts, root)(ts[i])
        implies #[trigger] after_delete(ts, root).contains(pruned(ts, root)(ts[i])) by {
        ts.lemma_filter_contains(keep, i);
        let a = choose|a: int| 0 <= a < f.len() && f[a] == ts[i];
        assert(after_delete(ts, root)[a] == pruned(ts, root)(ts[i]));
    }
}

impl RunTasks {
    /// Puts `t` in place of the task at `k`; `t` keeps that task's id,
    /// status and claim.
    fn replace_task(&mut self, k: usize, t: FlowTask)
        requires
            old(self).wf(),
            k < old(self).tasks.len(),
            t@.id == old(self).task_list()[k as int].id,
            t@.status == old(self).task_list()[k as int].status,
            t@.claimed_by == old(self).task_list()[k as int].claimed_by,
        ensures
            final(self).wf(),
            final(self).task_list() == old(self).task_list().update(k as int, t@),
            final(self).validates@ == old(self).validates@,
            final(self).workers@ == old(self).workers@,
            final(self).log@ == old(self).log@,
    {
        let ghost ts = self.task_list();
        proof {
            lemma_same_claims_keep_wf(ts, k as int, t@);
        }
        self.tasks.set(k, t);
        assert(self.task_list() =~= ts.update(k as int, t@));
    }

    /// Assigns the task `task_id` to `worker_name`, or clears its
    /// assignment; an assignment to a worker is recorded. A task that is not
    /// there is refused and nothing changes.
    pub fn set_task_assigned_to(&mut self, task_id: &str, worker_name: Option<&str>) -> (r: Result<(), StateError>)
        requires
            old(self).wf(),
        ensures
            final(self).wf(),
            final(self).validates@ == old(self).validates@,
            final(self).workers@ == old(self).workers@,
            ({
                let ts = old(self).task_list();
                let wv = match worker_name { Some(w) => Some(w@), None => None };
                if !has_task(ts, task_id@) {
                    r matches Err(StateError::NotFound(m)) && m@ == "Task '"@ + task_id@ + "' not found"@
                        && final(self).task_list() == ts && final(self).log@ == old(self).log@
                } else {
                    let k = task_pos(ts, task_id@);
                    &&& r is Ok
                    &&& final(self).task_list() == ts.update(k, FlowTaskView { assigned_to: wv, ..ts[k] })
                    &&& log_views(final(self).log@) == match worker_name {
                        Some(w) => log_views(old(self).log@).push(("task_assign"@, Some(task_id@ + " \u{2192} "@ + w@))),
                        None => log_views(old(self).log@),
                    }
                }
            }),
    {
        let ghost ts = self.task_list();
        let k = match self.find(task_id) {
            None => return Err(StateError::NotFound(concat3("Task '", task_id, "' not found"))),
            Some(k) => k,
        };
        assert(ts[k as int] == self.tasks@[k as int]@);
        let mut t = self.tasks[k].clone();
        t.assigned_to = match worker_name { Some(w) => Some(w.to_owned()), None => None };
        self.replace_task(k, t);
        if let Some(w) = worker_name {
            let ghost log0 = log_views(self.log@);
            self.log.push(LogEntry { action: "task_assign".to_owned(), detail: Some(concat3(task_id, " \u{2192} ", w)) });
            assert(log_views(self.log@) =~= log0.push(("task_assign"@, Some(task_id@ + " \u{2192} "@ + w@))));
        }
        Ok(())
    }

    /// Marks, at `now`, that the worker of the task `task_id` began to finish
    /// it; a task that is not there is left alone.
    pub fn set_task_pending_done(&mut self, task_id: &str, now: &str)
        requires
            old(self).wf(),
        ensures
            final(self).wf(),
            final(self).validates@ == old(self).validates@,
            final(self).workers@ == old(self).workers@,
            final(self).log@ == old(self).log@,
            ({
                let ts = old(self).task_list();
                final(self).task_list() == if has_task(ts, task_id@) {
                    let k = task_pos(ts, task_id@);
                    ts.update(k, FlowTaskView { pending_done_at: Some(now@), ..ts[k] })
                } else {
                    ts
                }
            }),
    {
        let ghost ts = self.task_list();
        if let Some(k) = self.find(task_id) {
            assert(ts[k as int] == self.tasks@[k as int]@);
            let mut t = self.tasks[k].clone();
            t.pending_done_at = Some(now.to_owned());
            self.replace_task(k, t);
        }
    }

    /// Clears the mark that the worker of the task `task_id` began to finish
    /// it; a task that is not there is left alone.
    pub fn clear_task_pending_done(&mut self, task_id: &str)
        requires
            old(self).wf(),
        ensures
            final(self).wf(),
            final(self).validates@ == old(self).validates@,
            final(self).workers@ == old(self).workers@,
            final(self).log@ == old(self).log@,
            ({
                let ts = old(self).task_list();
                final(self).task_list() == if has_task(ts, task_id@) {
                    let k = task_pos(ts, task_id@);
                    ts.update(k, FlowTaskView { pending_done_at: None, ..ts[k] })
                } else {
                    ts
                }
            }),
    {
        let ghost ts = self.task_list();
        if let Some(k) = self.find(task_id) {
            assert(ts[k as int] == self.tasks@[k as int]@);
            let mut t = self.tasks[k].clone();
            t.pending_done_at = None;
            self.replace_task(k, t);
        }
    }

    /// Records the tokens spent on the task `task_id`; a task that is not
    /// there is left alone.
    pub fn set_task_tokens(&mut self, task_id: &str, tokens: i64)
        requires
            old(self).wf(),
        ensures
            final(self).wf(),
            final(self).validates@ == old(self).validates@,
            final(self).workers@ == old(self).workers@,
            final(self).log@ == old(self).log@,
            ({
                let ts = old(self).task_list();
                final(self).task_list() == if has_task(ts, task_id@) {
                    let k = task_pos(ts, task_id@);
                    ts.update(k, FlowTaskView { tokens_used: Some(tokens), ..ts[k] })
                } else {
                    ts
                }
            }),
    {
        let ghost ts = self.task_list();
        if let Some(k) = self.find(task_id) {
            assert(ts[k as int] == self.tasks@[k as int]@);
            let mut t = self.tasks[k].clone();
            t.tokens_used = Some(tokens);
            self.replace_task(k, t);
        }
    }
}

/// Trusted: writes the refusal in its derived `Debug` form with `format!`.
/// Nothing is stated of the text.
#[verifier::external_body]
fn reason_text(reason: &ClaimRejectReason) -> (r: String) {
    format!("{:?}", reason)
}

/// Whether a claim of the task `id` by `worker` succeeds: the worker holds
/// it already, or it is to do and none of the refusals after the first
/// three applies.
pub open spec fn claim_goes_through(ts: Seq<FlowTaskView>, vs: Seq<(Seq<char>, Seq<char>)>, id: Seq<char>, worker: Seq<char>) -> bool {
    has_task(ts, id) && ({
        let t = ts[task_pos(ts, id)];
        ||| t.status == TaskStatus::Doing && t.claimed_by == Some(worker)
        ||| t.status == TaskStatus::Todo && !busy(ts, worker) && !has_children(ts, id)
            && !(t.task_type == TaskType::Work && blocker_infos(ts, vs, t).len() > 0)
            && !(t.task_type == TaskType::Eval && pending_of(ts, vs, id).len() > 0)
    })
}

impl RunTasks {
    /// Claims the task `task_id` for `worker_name` at `now` as
    /// `try_claim_task` does, answering a refusal with an invalid-state
    /// error that describes its reason.
    pub fn claim_task(&mut self, task_id: &str, worker_name: &str, now: &str) -> (r: Result<(), StateError>)
        requires
            old(self).wf(),
        ensures
            final(self).wf(),
            final(self).validates@ == old(self).validates@,
            final(self).workers@ == old(self).workers@,
            ({
                let ts = old(self).task_list();
                let vs = old(self).links();
                if claim_goes_through(ts, vs, task_id@, worker_name@) {
                    let k = task_pos(ts, task_id@);
                    &&& r is Ok
                    &&& ts[k].status == TaskStatus::Doing ==> final(self).task_list() == ts && final(self).log@ == old(self).log@
                    &&& ts[k].status == TaskStatus::Todo ==> final(self).task_list() == ts.update(k, claimed(ts[k], worker_name@, now@))
                        && log_views(final(self).log@) == log_views(old(self).log@).push(
                            ("task_claim"@, Some(task_id@ + " by "@ + worker_name@)))
                } else {
                    r matches Err(StateError::InvalidState(_))
                        && final(self).task_list() == ts && final(self).log@ == old(self).log@
                }
            }),
    {
        match self.try_claim_task(task_id, worker_name, now) {
            ClaimTaskResult::Success { .. } => Ok(()),
            ClaimTaskResult::Rejected { reason, .. } => Err(StateError::InvalidState(reason_text(&reason))),
        }
    }
}

/// An eval that failed waits for its repair: once it has failed, with the
/// repair task added, it cannot be claimed, whatever its links, since the
/// repair task is its child.
pub proof fn lemma_failed_eval_waits_for_repair(
    ts: Seq<FlowTaskView>,
    vs: Seq<(Seq<char>, Seq<char>)>,
    k: int,
    rid: Seq<char>,
    feedback: Seq<char>,
    now: Seq<char>,
)
    requires
        0 <= k < ts.len(),
    ensures
        ({
            let ts2 = ts.map_values(after_eval_fail(vs, ts[k].id, rid, feedback)).push(
                repair_task(ts[k], rid, feedback, now));
            &&& ts2[k].status == TaskStatus::Todo
            &&& ts2[k].eval_result == Some(EvalResult::Fail)
            &&& !eval_claimable(ts2, vs)(ts2[k])
            &&& !work_claimable(ts2, vs)(ts2[k])
            &&& !claimable(ts2, vs).contains(ts2[k])
        }),
{
    let ts2 = ts.map_values(after_eval_fail(vs, ts[k].id, rid, feedback)).push(
        repair_task(ts[k], rid, feedback, now));
    let n = ts.len() as int;
    assert(ts2[k] == failed_eval(ts[k], rid, feedback));
    assert(ts2[n] == repair_task(ts[k], rid, feedback, now));
    assert(ts2[n].parent_id == Some(ts2[k].id));
    assert(has_children(ts2, ts2[k].id));
    assert(!open_leaf(ts2, ts2[k]));
    let ce = ts2.filter(eval_claimable(ts2, vs));
    let cw = ts2.filter(work_claimable(ts2, vs));
    if claimable(ts2, vs).contains(ts2[k]) {
        let a = choose|a: int| 0 <= a < claimable(ts2, vs).len() && claimable(ts2, vs)[a] == ts2[k];
        assert(claimable(ts2, vs) == ce + cw);
        if a < ce.len() {
            ts2.lemma_filter_pred(eval_claimable(ts2, vs), a);
            assert(ce[a] == ts2[k]);
        } else {
            ts2.lemma_filter_pred(work_claimable(ts2, vs), a - ce.len());
            assert(cw[a - ce.len()] == ts2[k]);
        }
    }
}

/// The token counts of the done tasks that recorded one, the run's `scope`
/// task aside, in task order.
pub open spec fn done_tokens(ts: Seq<FlowTaskView>) -> Seq<i64>
    decreases ts.len(),
{
    if ts.len() == 0 {
        Seq::empty()
    } else {
        let t = ts.last();
        let rest = done_tokens(ts.drop_last());
        if t.status == TaskStatus::Done && t.tokens_used is Some && t.id != "scope"@ {
            rest.push(t.tokens_used->0)
        } else {
            rest
        }
    }
}

impl RunTasks {
    /// The mean token count of the done tasks that recorded one (the run's
    /// `scope` task aside), rounded toward zero; 0 when there is none.
    pub fn get_avg_task_tokens(&self) -> (r: i64)
        ensures
            r == crate::task_board::mean_toward_zero(done_tokens(self.task_list())),
    {
        let ghost ts = self.task_list();
        let mut sum: i128 = 0;
        let mut count: usize = 0;
        let mut i: usize = 0;
        while i < self.tasks.len()
            invariant
                i <= self.tasks.len(),
                ts == self.task_list(),
                ts.len() == self.tasks.len(),
                count == done_tokens(ts.take(i as int)).len(),
                sum == crate::task_board::total(done_tokens(ts.take(i as int))),
                count <= i,
            decreases self.tasks.len() - i,
        {
            let t = &self.tasks[i];
            assert(ts[i as int] == t@);
            assert(ts.take(i as int + 1).drop_last() =~= ts.take(i as int));
            assert(ts.take(i as int + 1).last() == ts[i as int]);
            proof {
                crate::task_board::lemma_total_bound(done_tokens(ts.take(i as int)));
                assert(count as int * 0x7fff_ffff_ffff_ffff <= i as int * 0x7fff_ffff_ffff_ffff) by (nonlinear_arith)
                    requires
                        count <= i,
                ;
                assert(count as int * 0x8000_0000_0000_0000 <= i as int * 0x8000_0000_0000_0000) by (nonlinear_arith)
                    requires
                        count <= i,
                ;
            }
            if t.status == TaskStatus::Done && !str_eq(t.id.as_str(), "scope") {
                if let Some(n) = t.tokens_used {
                    proof {
                        reveal_strlit("scope");
                        let xs = done_tokens(ts.take(i as int));
                        assert(done_tokens(ts.take(i as int + 1)) == xs.push(n));
                        assert(xs.push(n).drop_last() =~= xs);
                    }
                    sum = sum + n as i128;
                    count = count + 1;
                }
            }
            proof {
                reveal_strlit("scope");
            }
            i = i + 1;
        }
        assert(ts.take(ts.len() as int) =~= ts);
        if count == 0 {
            return 0;
        }
        proof {
            crate::task_board::lemma_total_bound(done_tokens(ts));
            crate::task_board::lemma_mean_in_range(sum as int, count as int);
        }
        let q: i128 = if sum >= 0 { sum / (count as i128) } else { -((-sum) / (count as i128)) };
        q as i64
    }
}

/// Work whose blockers are all finished is offered: an unclaimed work task
/// to do, without children, each of whose blockers is a task that is
/// validated, or done with no eval validating it, is among the claimable
/// tasks. A done blocker that no eval validates never holds work back.
pub proof fn lemma_finished_blockers_free_work(ts: Seq<FlowTaskView>, vs: Seq<(Seq<char>, Seq<char>)>, j: int)
    requires
        tasks_wf(ts),
        0 <= j < ts.len(),
        ts[j].task_type == TaskType::Work,
        ts[j].status == TaskStatus::Todo,
        ts[j].claimed_by is None,
        forall|k: int| 0 <= k < ts.len() ==> (#[trigger] ts[k].parent_id) != Some(ts[j].id),
        forall|i: int| 0 <= i < ts[j].blocked_by.len() ==> exists|k: int| 0 <= k < ts.len()
            && #[trigger] ts[k].id == #[trigger] ts[j].blocked_by[i]
            && (ts[k].status == TaskStatus::Validated
                || (ts[k].status == TaskStatus::Done && forall|m: int| 0 <= m < vs.len() ==> (#[trigger] vs[m]).1 != ts[k].id)),
    ensures
        claimable(ts, vs).contains(ts[j]),
{
    let t = ts[j];
    assert(!has_children(ts, t.id));
    assert forall|i: int| 0 <= i < t.blocked_by.len() implies !blocks_work(ts, vs, #[trigger] t.blocked_by[i]) by {
        let k = choose|k: int| 0 <= k < ts.len() && #[trigger] ts[k].id == #[trigger] t.blocked_by[i]
            && (ts[k].status == TaskStatus::Validated
                || (ts[k].status == TaskStatus::Done && forall|m: int| 0 <= m < vs.len() ==> (#[trigger] vs[m]).1 != ts[k].id));
        lemma_task_pos(ts, k);
        if ts[k].status == TaskStatus::Done && !(ts[k].status == TaskStatus::Validated) {
            assert(!has_eval(vs, ts[k].id));
        }
    }
    assert(work_claimable(ts, vs)(t));
    ts.lemma_filter_contains(work_claimable(ts, vs), j);
    let ce = ts.filter(eval_claimable(ts, vs));
    let cw = ts.filter(work_claimable(ts, vs));
    let a = choose|a: int| 0 <= a < cw.len() && cw[a] == t;
    assert(claimable(ts, vs) == ce + cw);
    assert((ce + cw)[ce.len() + a] == t);
}

/// What is offered is free to take: every claimable task is to do,
/// unclaimed and without children; none of its blockers is a task that is
/// there and neither done nor validated; and an eval validates at least one
/// task, each of them there.
pub proof fn lemma_offered_tasks_are_free(ts: Seq<FlowTaskView>, vs: Seq<(Seq<char>, Seq<char>)>, a: int)
    requires
        tasks_wf(ts),
        0 <= a < claimable(ts, vs).len(),
    ensures
        ({
            let t = claimable(ts, vs)[a];
            &&& t.status == TaskStatus::Todo
            &&& t.claimed_by is None
            &&& forall|k: int| 0 <= k < ts.len() ==> (#[trigger] ts[k].parent_id) != Some(t.id)
            &&& forall|i: int, k: int| 0 <= i < t.blocked_by.len() && 0 <= k < ts.len()
                && #[trigger] ts[k].id == #[trigger] t.blocked_by[i]
                ==> ts[k].status == TaskStatus::Done || ts[k].status == TaskStatus::Validated
            &&& t.task_type == TaskType::Eval ==> (exists|m: int| 0 <= m < vs.len() && (#[trigger] vs[m]).0 == t.id)
                && forall|m: int| 0 <= m < vs.len() && (#[trigger] vs[m]).0 == t.id
                    ==> exists|k: int| 0 <= k < ts.len() && ts[k].id == vs[m].1
        }),
{
    let ce = ts.filter(eval_claimable(ts, vs));
    let cw = ts.filter(work_claimable(ts, vs));
    assert(claimable(ts, vs) == ce + cw);
    let t = claimable(ts, vs)[a];
    if a < ce.len() {
        ts.lemma_filter_pred(eval_claimable(ts, vs), a);
        assert(ce[a] == t);
    } else {
        ts.lemma_filter_pred(work_claimable(ts, vs), a - ce.len());
        assert(cw[a - ce.len()] == t);
    }
    assert(open_leaf(ts, t));
    assert forall|k: int| 0 <= k < ts.len() implies (#[trigger] ts[k].parent_id) != Some(t.id) by {
        if ts[k].parent_id == Some(t.id) {
            assert(has_children(ts, t.id));
        }
    }
    assert forall|i: int, k: int| 0 <= i < t.blocked_by.len() && 0 <= k < ts.len()
        && #[trigger] ts[k].id == #[trigger] t.blocked_by[i]
        implies ts[k].status == TaskStatus::Done || ts[k].status == TaskStatus::Validated by {
        lemma_task_pos(ts, k);
        if t.task_type == TaskType::Eval {
            assert(!blocks_eval(ts, t.blocked_by[i]));
        } else {
            assert(!blocks_work(ts, vs, t.blocked_by[i]));
        }
    }
    if t.task_type == TaskType::Eval {
        let f = vs.filter(link_of(t.id));
        let v = validated_ids(vs, t.id);
        assert(targets_ready(ts, vs, t.id));
        assert(v.len() > 0);
        vs.lemma_filter_pred(link_of(t.id), 0);
        assert(f.contains(f[0]));
        vs.lemma_filter_contains_rev(link_of(t.id), f[0]);
        let m0 = choose|m: int| 0 <= m < vs.len() && vs[m] == f[0];
        assert(vs[m0].0 == t.id);
        assert forall|m: int| 0 <= m < vs.len() && (#[trigger] vs[m]).0 == t.id
            implies exists|k: int| 0 <= k < ts.len() && ts[k].id == vs[m].1 by {
            vs.lemma_filter_contains(link_of(t.id), m);
            let q = choose|q: int| 0 <= q < f.len() && f[q] == vs[m];
            assert(v[q] == vs[m].1);
            assert(status_of(ts, v[q]) is Some);
            assert(has_task(ts, vs[m].1));
        }
    }
}

/// An eval ready for evaluation is offered ahead of all work: an unclaimed
/// eval to do, without children, that validates at least one task, whose
/// validated tasks are all there and done, awaiting it or validated, and
/// whose blockers that are there are all done or validated, is among the
/// claimable tasks with only evals before it.
pub proof fn lemma_ready_eval_offered_first(ts: Seq<FlowTaskView>, vs: Seq<(Seq<char>, Seq<char>)>, j: int)
    requires
        tasks_wf(ts),
        0 <= j < ts.len(),
        ts[j].task_type == TaskType::Eval,
        ts[j].status == TaskStatus::Todo,
        ts[j].claimed_by is None,
        forall|k: int| 0 <= k < ts.len() ==> (#[trigger] ts[k].parent_id) != Some(ts[j].id),
        exists|m: int| 0 <= m < vs.len() && (#[trigger] vs[m]).0 == ts[j].id,
        forall|x: Seq<char>| #[trigger] vs.contains((ts[j].id, x)) ==> exists|k: int| 0 <= k < ts.len()
            && #[trigger] ts[k].id == x && (ts[k].status == TaskStatus::Done
                || ts[k].status == TaskStatus::AwaitingEval || ts[k].status == TaskStatus::Validated),
        forall|i: int, k: int| 0 <= i < ts[j].blocked_by.len() && 0 <= k < ts.len()
            && #[trigger] ts[k].id == #[trigger] ts[j].blocked_by[i]
            ==> ts[k].status == TaskStatus::Done || ts[k].status == TaskStatus::Validated,
    ensures
        exists|a: int| 0 <= a < claimable(ts, vs).len() && claimable(ts, vs)[a] == ts[j]
            && forall|q: int| 0 <= q < a ==> (#[trigger] claimable(ts, vs)[q]).task_type == TaskType::Eval,
{
    let t = ts[j];
    let id = t.id;
    assert(!has_children(ts, id));
    let f = vs.filter(link_of(id));
    let v = validated_ids(vs, id);
    let m0 = choose|m: int| 0 <= m < vs.len() && (#[trigger] vs[m]).0 == id;
    vs.lemma_filter_contains(link_of(id), m0);
    assert(f.len() > 0);
    assert forall|i: int| 0 <= i < v.len() implies (status_of(ts, #[trigger] v[i]) matches Some(s) && s.ready_for_eval()) by {
        vs.lemma_filter_pred(link_of(id), i);
        assert(f.contains(f[i]));
        vs.lemma_filter_contains_rev(link_of(id), f[i]);
        assert(f[i].0 == id);
        assert(f[i] == (id, f[i].1));
        assert(vs.contains((id, f[i].1)));
        assert(v[i] == f[i].1);
        let k = choose|k: int| 0 <= k < ts.len() && #[trigger] ts[k].id == f[i].1 && (ts[k].status == TaskStatus::Done
            || ts[k].status == TaskStatus::AwaitingEval || ts[k].status == TaskStatus::Validated);
        lemma_task_pos(ts, k);
    }
    assert(targets_ready(ts, vs, id));
    assert forall|i: int| 0 <= i < t.blocked_by.len() implies !blocks_eval(ts, #[trigger] t.blocked_by[i]) by {
        if has_task(ts, t.blocked_by[i]) {
            let k = task_pos(ts, t.blocked_by[i]);
            assert(ts[k].id == t.blocked_by[i]);
        }
    }
    assert(eval_claimable(ts, vs)(t));
    ts.lemma_filter_contains(eval_claimable(ts, vs), j);
    let ce = ts.filter(eval_claimable(ts, vs));
    let cw = ts.filter(work_claimable(ts, vs));
    let a = choose|a: int| 0 <= a < ce.len() && ce[a] == t;
    assert(claimable(ts, vs) == ce + cw);
    assert forall|q: int| 0 <= q < a implies (#[trigger] claimable(ts, vs)[q]).task_type == TaskType::Eval by {
        ts.lemma_filter_pred(eval_claimable(ts, vs), q);
        assert(claimable(ts, vs)[q] == ce[q]);
    }
    assert(claimable(ts, vs)[a] == t);
}

/// Looking up the tree from a completed task leaves every done task as it
/// is and keeps the number of tasks.
pub proof fn lemma_ancestors_keep_done(ts: Seq<FlowTaskView>, p: Option<Seq<char>>, now: Seq<char>, fuel: nat, k: int)
    requires
        0 <= k < ts.len(),
        ts[k].status == TaskStatus::Done,
    ensures
        complete_ancestors(ts, p, now, fuel).0.len() == ts.len(),
        complete_ancestors(ts, p, now, fuel).0[k] == ts[k],
    decreases fuel,
{
    match p {
        None => {},
        Some(pid) => {
            if fuel == 0 || !has_children(ts, pid) || !children_done(ts, pid) || !has_task(ts, pid)
                || ts[task_pos(ts, pid)].status == TaskStatus::Done {
            } else {
                let q = task_pos(ts, pid);
                let ts2 = ts.update(q, FlowTaskView { status: TaskStatus::Done, completed_at: Some(now), ..ts[q] });
                assert(q != k);
                lemma_ancestors_keep_done(ts2, ts[q].parent_id, now, (fuel - 1) as nat, k);
            }
        },
    }
}

/// A parent that is there, not done, and whose children, of which there is
/// at least one, are all done, is completed when it is looked at: it ends
/// done at `now`, and its auto-completion is the first line recorded.
pub proof fn lemma_done_children_complete_parent(ts: Seq<FlowTaskView>, pid: Seq<char>, now: Seq<char>, fuel: nat, k: int)
    requires
        tasks_wf(ts),
        fuel > 0,
        0 <= k < ts.len(),
        ts[k].id == pid,
        ts[k].status != TaskStatus::Done,
        exists|c: int| 0 <= c < ts.len() && (#[trigger] ts[c]).parent_id == Some(pid),
        forall|c: int| 0 <= c < ts.len() && (#[trigger] ts[c]).parent_id == Some(pid) ==> ts[c].status == TaskStatus::Done,
    ensures
        ({
            let up = complete_ancestors(ts, Some(pid), now, fuel);
            &&& up.0.len() == ts.len()
            &&& up.0[k].status == TaskStatus::Done
            &&& up.0[k].completed_at == Some(now)
            &&& up.1.len() > 0
            &&& up.1[0] == ("task_done"@, Some(pid + " (auto-completed)"@))
        }),
{
    lemma_task_pos(ts, k);
    assert(has_children(ts, pid));
    assert(children_done(ts, pid));
    let ts2 = ts.update(k, FlowTaskView { status: TaskStatus::Done, completed_at: Some(now), ..ts[k] });
    lemma_ancestors_keep_done(ts2, ts[k].parent_id, now, (fuel - 1) as nat, k);
}

/// A parent with a child that is not done is not completed: looking up the
/// tree from a completed task stops at such a parent, which keeps its
/// status, and nothing is recorded for it.
pub proof fn lemma_open_child_keeps_parent(ts: Seq<FlowTaskView>, pid: Seq<char>, now: Seq<char>, fuel: nat)
    requires
        exists|k: int| 0 <= k < ts.len() && (#[trigger] ts[k]).parent_id == Some(pid) && ts[k].status != TaskStatus::Done,
    ensures
        complete_ancestors(ts, Some(pid), now, fuel) == (ts, Seq::<(Seq<char>, Option<Seq<char>>)>::empty()),
{
    let k = choose|k: int| 0 <= k < ts.len() && (#[trigger] ts[k]).parent_id == Some(pid) && ts[k].status != TaskStatus::Done;
    assert(!children_done(ts, pid));
}

/// How many workers a run has, as its summary reports them.
#[derive(Debug)]
pub struct WorkerCounts {
    /// Workers at work.
    pub workers_active: u32,
    /// Worker records of the run.
    pub workers_total: u32,
    /// Workers the run asks for: its worker scale when that is a whole
    /// number, else the number of its workers.
    pub workers_desired: u32,
}

/// The number of workers of `ws` at work.
pub open spec fn working_count(ws: Seq<WorkerRecordView>) -> nat
    decreases ws.len(),
{
    if ws.len() == 0 {
        0
    } else {
        working_count(ws.drop_last()) + if ws.last().status == WorkerStatus::Working { 1nat } else { 0nat }
    }
}

/// The worker counts of a run with the workers `workers` and the worker
/// scale `worker_scale`.
pub fn worker_counts(workers: &Vec<Worker>, worker_scale: Option<&str>) -> (r: WorkerCounts)
    requires
        workers.len() <= u32::MAX,
    ensures
        r.workers_total == workers.len(),
        r.workers_active == working_count(worker_views(workers@)),
        r.workers_desired == match worker_scale {
            Some(s) => match parse_u32(s@) {
                Some(n) => n,
                None => workers.len() as u32,
            },
            None => workers.len() as u32,
        },
{
    let ghost ws = worker_views(workers@);
    let mut active: u32 = 0;
    let mut i: usize = 0;
    assert(ws.take(0) =~= Seq::<WorkerRecordView>::empty());
    while i < workers.len()
        invariant
            i <= workers.len(),
            workers.len() <= u32::MAX,
            ws == worker_views(workers@),
            active == working_count(ws.take(i as int)),
            active <= i,
        decreases workers.len() - i,
    {
        assert(ws.take(i as int + 1).drop_last() =~= ws.take(i as int));
        assert(ws.take(i as int + 1).last() == workers@[i as int]@);
        if workers[i].status == WorkerStatus::Working {
            active = active + 1;
        }
        i = i + 1;
    }
    assert(ws.take(workers.len() as int) =~= ws);
    let total = workers.len() as u32;
    let desired = match worker_scale {
        Some(s) => match parse_u32_str(s) {
            Some(n) => n,
            None => total,
        },
        None => total,
    };
    WorkerCounts { workers_active: active, workers_total: total, workers_desired: desired }
}

} // verus!
