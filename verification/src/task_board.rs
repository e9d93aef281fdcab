//! The task tree of a run: adding, claiming, completing, reopening and
//! deleting tasks, and the rules that decide which tasks can be claimed.
//!
//! Tasks form a forest: each task names at most one parent, every parent
//! exists and was created before its children, and no two tasks share an id.

use vstd::prelude::*;
use crate::text::{
    comma_count, concat, concat3, decimal, join, joined, join_strs, list_items, segments,
    split_list, str_eq, to_decimal, views,
};
use crate::run_state::{clone_opt, LogEntry, RunView, SQLiteState, StateError, Task, TaskStatus, TaskView};

verus! {

/// The contents of a sequence of tasks.
pub open spec fn tviews(v: Seq<Task>) -> Seq<TaskView> {
    v.map_values(|t: Task| t@)
}

/// Whether some task has id `id`.
pub open spec fn has_task(ts: Seq<TaskView>, id: Seq<char>) -> bool {
    exists|i: int| 0 <= i < ts.len() && ts[i].id == id
}

/// The position of the task with id `id`.
pub open spec fn task_index(ts: Seq<TaskView>, id: Seq<char>) -> int {
    choose|i: int| 0 <= i < ts.len() && ts[i].id == id
}

/// The task with id `id`, if any.
pub open spec fn lookup(ts: Seq<TaskView>, id: Seq<char>) -> Option<TaskView> {
    if has_task(ts, id) {
        Some(ts[task_index(ts, id)])
    } else {
        None
    }
}

/// No two tasks share an id.
pub open spec fn unique_ids(ts: Seq<TaskView>) -> bool {
    forall|i: int, j: int| 0 <= i < ts.len() && 0 <= j < ts.len() && i != j ==> ts[i].id != ts[j].id
}

/// Every task's parent exists and comes before it.
pub open spec fn parents_first(ts: Seq<TaskView>) -> bool {
    forall|i: int|
        0 <= i < ts.len() ==> match #[trigger] ts[i].parent_id {
            Some(p) => has_task(ts, p) && task_index(ts, p) < i,
            None => true,
        }
}

/// The task tree is well formed: unique ids, parents exist and come first.
pub open spec fn tasks_wf(ts: Seq<TaskView>) -> bool {
    unique_ids(ts) && parents_first(ts)
}

impl SQLiteState {
    /// The run state's task tree is well formed.
    pub open spec fn wf(&self) -> bool {
        tasks_wf(self@.tasks)
    }
}

/// With unique ids, the position of an id is the one position that holds it.
pub proof fn lemma_task_index(ts: Seq<TaskView>, i: int)
    requires
        unique_ids(ts),
        0 <= i < ts.len(),
    ensures
        has_task(ts, ts[i].id),
        task_index(ts, ts[i].id) == i,
{
    assert(has_task(ts, ts[i].id));
    let k = task_index(ts, ts[i].id);
    assert(ts[k].id == ts[i].id);
}

/// How many tasks the chain from position `i` up to its root holds.
pub open spec fn depth_at(ts: Seq<TaskView>, i: int) -> nat
    decreases i,
{
    if 0 <= i < ts.len() {
        match ts[i].parent_id {
            Some(p) => if has_task(ts, p) && 0 <= task_index(ts, p) < i {
                1 + depth_at(ts, task_index(ts, p))
            } else {
                1
            },
            None => 1,
        }
    } else {
        0
    }
}

/// Depth of the task `id` in its tree: 1 for a root, 0 for no such task.
pub open spec fn depth(ts: Seq<TaskView>, id: Seq<char>) -> nat {
    if has_task(ts, id) {
        depth_at(ts, task_index(ts, id))
    } else {
        0
    }
}

/// Whether `t` is a child of `id`.
pub open spec fn child_of(t: TaskView, id: Seq<char>) -> bool {
    t.parent_id == Some(id)
}

/// The children of `id`, in order of creation.
pub open spec fn children(ts: Seq<TaskView>, id: Seq<char>) -> Seq<TaskView> {
    ts.filter(|t: TaskView| child_of(t, id))
}

/// Whether `id` has children.
pub open spec fn has_child(ts: Seq<TaskView>, id: Seq<char>) -> bool {
    exists|i: int| 0 <= i < ts.len() && child_of(ts[i], id)
}

/// Message of the error for a task that does not exist.
pub open spec fn msg_task_not_found(id: Seq<char>) -> Seq<char> {
    "Task '"@ + id + "' not found"@
}

/// The contents of an error of the run state.
pub enum StateErrorView {
    NotFound(Seq<char>),
    InvalidState(Seq<char>),
    AlreadyExists(Seq<char>),
}

/// The contents of a run-state error.
pub open spec fn err_view(e: StateError) -> StateErrorView {
    match e {
        StateError::NotFound(m) => StateErrorView::NotFound(m@),
        StateError::InvalidState(m) => StateErrorView::InvalidState(m@),
        StateError::AlreadyExists(m) => StateErrorView::AlreadyExists(m@),
    }
}

/// The contents of the result of an operation that returns nothing.
pub open spec fn outcome(r: Result<(), StateError>) -> Option<StateErrorView> {
    match r {
        Ok(()) => None,
        Err(e) => Some(err_view(e)),
    }
}

/// The two run views agree on everything but the tasks and the log.
pub open spec fn same_but_tasks(a: RunView, b: RunView) -> bool {
    &&& a.status == b.status
    &&& a.waiting_reason == b.waiting_reason
    &&& a.workers == b.workers
    &&& a.evals == b.evals
    &&& a.settings == b.settings
    &&& a.journal == b.journal
}

/// The characters of an optional string slice.
pub open spec fn opt_str(o: Option<&str>) -> Option<Seq<char>> {
    match o {
        Some(s) => Some(s@),
        None => None,
    }
}

/// The items of an optional list of string slices.
pub open spec fn opt_list(o: Option<&[&str]>) -> Option<Seq<Seq<char>>> {
    match o {
        Some(b) => Some(b@.map_values(|x: &str| x@)),
        None => None,
    }
}

/// Message of the error for a parent that does not exist.
pub open spec fn msg_parent_not_found(p: Seq<char>) -> Seq<char> {
    "Parent task '"@ + p + "' not found"@
}

/// Message of the error for a parent that is already three levels deep.
pub open spec fn msg_max_depth(p: Seq<char>) -> Seq<char> {
    "Cannot add child to '"@ + p + "': max hierarchy depth is 3"@
}

/// Message of the error for an id that is taken.
pub open spec fn msg_task_exists(id: Seq<char>) -> Seq<char> {
    "Task '"@ + id + "' already exists"@
}

/// Why adding a task with this id under this parent is refused, if it is.
pub open spec fn add_check(ts: Seq<TaskView>, id: Seq<char>, parent: Option<Seq<char>>) -> Option<
    StateErrorView,
> {
    match parent {
        Some(p) => if depth(ts, p) == 0 {
            Some(StateErrorView::NotFound(msg_parent_not_found(p)))
        } else if depth(ts, p) >= 3 {
            Some(StateErrorView::InvalidState(msg_max_depth(p)))
        } else if has_task(ts, id) {
            Some(StateErrorView::AlreadyExists(msg_task_exists(id)))
        } else {
            None
        },
        None => if has_task(ts, id) {
            Some(StateErrorView::AlreadyExists(msg_task_exists(id)))
        } else {
            None
        },
    }
}

/// The task that `add_task` creates.
pub open spec fn new_task(
    id: Seq<char>,
    name: Seq<char>,
    parent: Option<Seq<char>>,
    blocked_by: Option<Seq<Seq<char>>>,
    now: Seq<char>,
) -> TaskView {
    TaskView {
        id,
        name,
        status: TaskStatus::Todo,
        created_at: now,
        completed_at: None,
        claimed_by: None,
        claimed_at: None,
        pending_done_at: None,
        tokens_used: None,
        parent_id: parent,
        blocked_by: match blocked_by {
            Some(b) => Some(joined(b, ","@)),
            None => None,
        },
    }
}

/// The history detail that `add_task` records.
pub open spec fn add_detail(
    id: Seq<char>,
    name: Seq<char>,
    parent: Option<Seq<char>>,
    blocked_by: Option<Seq<Seq<char>>>,
) -> Seq<char> {
    let base = id + ": "@ + name;
    let with_parent = match parent {
        Some(p) => base + " (parent: "@ + p + ")"@,
        None => base,
    };
    match blocked_by {
        Some(b) => with_parent + " (blocked by: "@ + joined(b, ", "@) + ")"@,
        None => with_parent,
    }
}

/// Adding a task whose id is new and whose parent exists keeps the tree
/// well formed.
pub proof fn lemma_push_keeps_wf(ts: Seq<TaskView>, t: TaskView)
    requires
        tasks_wf(ts),
        !has_task(ts, t.id),
        t.parent_id matches Some(p) ==> has_task(ts, p),
    ensures
        tasks_wf(ts.push(t)),
{
    let ns = ts.push(t);
    assert(unique_ids(ns));
    assert forall|i: int| 0 <= i < ns.len() implies match #[trigger] ns[i].parent_id {
        Some(p) => has_task(ns, p) && task_index(ns, p) < i,
        None => true,
    } by {
        if let Some(p) = ns[i].parent_id {
            let k = task_index(ts, p);
            assert(ns[k].id == p);
            lemma_task_index(ns, k);
            if i < ts.len() {
                assert(ts[i].parent_id == Some(p));
            }
        }
    }
}

fn not_found(id: &str) -> (e: StateError)
    ensures
        err_view(e) == StateErrorView::NotFound(msg_task_not_found(id@)),
{
    StateError::NotFound(concat3("Task '", id, "' not found"))
}

impl SQLiteState {
    /// Position of the task with id `id`, if any.
    pub fn find_task(&self, id: &str) -> (r: Option<usize>)
        requires
            self.wf(),
        ensures
            match r {
                Some(i) => i < self.tasks.len() && has_task(self@.tasks, id@) && task_index(
                    self@.tasks,
                    id@,
                ) == i,
                None => !has_task(self@.tasks, id@),
            },
    {
        let mut i: usize = 0;
        while i < self.tasks.len()
            invariant
                self.wf(),
                i <= self.tasks.len(),
                forall|k: int| 0 <= k < i ==> self@.tasks[k].id != id@,
            decreases self.tasks.len() - i,
        {
            if str_eq(self.tasks[i].id.as_str(), id) {
                proof {
                    lemma_task_index(self@.tasks, i as int);
                }
                return Some(i);
            }
            i = i + 1;
        }
        None
    }

    /// The task with id `task_id`, if any.
    pub fn get_task(&self, task_id: &str) -> (r: Option<Task>)
        requires
            self.wf(),
        ensures
            match r {
                Some(t) => lookup(self@.tasks, task_id@) == Some(t@),
                None => lookup(self@.tasks, task_id@) is None,
            },
    {
        match self.find_task(task_id) {
            Some(i) => Some(self.tasks[i].clone()),
            None => None,
        }
    }

    /// All tasks, in order of creation.
    pub fn get_tasks(&self) -> (r: Vec<Task>)
        ensures
            tviews(r@) == self@.tasks,
    {
        let mut r: Vec<Task> = Vec::new();
        let mut i: usize = 0;
        while i < self.tasks.len()
            invariant
                i <= self.tasks.len(),
                tviews(r@) == self@.tasks.take(i as int),
            decreases self.tasks.len() - i,
        {
            let ghost before = tviews(r@);
            r.push(self.tasks[i].clone());
            assert(tviews(r@) =~= before.push(self@.tasks[i as int]));
            assert(self@.tasks.take(i as int + 1) =~= self@.tasks.take(i as int).push(
                self@.tasks[i as int],
            ));
            i = i + 1;
        }
        assert(self@.tasks.take(i as int) =~= self@.tasks);
        r
    }

    /// Whether the task `task_id` has children.
    pub fn has_children(&self, task_id: &str) -> (r: bool)
        ensures
            r == has_child(self@.tasks, task_id@),
    {
        let mut i: usize = 0;
        while i < self.tasks.len()
            invariant
                i <= self.tasks.len(),
                forall|k: int| 0 <= k < i ==> !child_of(#[trigger] self@.tasks[k], task_id@),
            decreases self.tasks.len() - i,
        {
            if let Some(p) = &self.tasks[i].parent_id {
                if str_eq(p.as_str(), task_id) {
                    assert(child_of(self@.tasks[i as int], task_id@));
                    return true;
                }
            }
            i = i + 1;
        }
        false
    }

    /// The children of the task `task_id`, in order of creation.
    pub fn get_children(&self, task_id: &str) -> (r: Vec<Task>)
        ensures
            tviews(r@) == children(self@.tasks, task_id@),
    {
        let ghost pred = |t: TaskView| child_of(t, task_id@);
        let mut r: Vec<Task> = Vec::new();
        let mut i: usize = 0;
        proof {
            reveal(Seq::filter);
            assert(self@.tasks.take(0).filter(pred) =~= Seq::<TaskView>::empty());
            assert(tviews(r@) =~= Seq::<TaskView>::empty());
        }
        while i < self.tasks.len()
            invariant
                i <= self.tasks.len(),
                pred == (|t: TaskView| child_of(t, task_id@)),
                tviews(r@) == self@.tasks.take(i as int).filter(pred),
            decreases self.tasks.len() - i,
        {
            let ghost pre = self@.tasks.take(i as int);
            proof {
                assert(self@.tasks.take(i as int + 1) =~= pre.push(self@.tasks[i as int]));
                pre.lemma_filter_push(self@.tasks[i as int], pred);
            }
            let mut is_child = false;
            if let Some(p) = &self.tasks[i].parent_id {
                is_child = str_eq(p.as_str(), task_id);
            }
            if is_child {
                let ghost before = tviews(r@);
                r.push(self.tasks[i].clone());
                assert(tviews(r@) =~= before.push(self@.tasks[i as int]));
            }
            i = i + 1;
        }
        assert(self@.tasks.take(i as int) =~= self@.tasks);
        r
    }

    /// Depth of the task `task_id` in its tree: 1 for a root task, 0 when
    /// there is no such task.
    pub fn get_task_depth(&self, task_id: &str) -> (r: usize)
        requires
            self.wf(),
        ensures
            r == depth(self@.tasks, task_id@),
    {
        let ghost ts = self@.tasks;
        let mut d: usize = 0;
        let mut cur = self.find_task(task_id);
        proof {
            if cur is Some {
                assert(d + depth_at(ts, cur->0 as int) == depth(ts, task_id@));
            }
        }
        while cur.is_some()
            invariant
                self.wf(),
                ts == self@.tasks,
                ts.len() == self.tasks.len(),
                cur matches Some(i) ==> i < ts.len() && d + depth_at(ts, i as int) == depth(
                    ts,
                    task_id@,
                ) && d + i + 1 <= ts.len(),
                cur is None ==> d == depth(ts, task_id@) && d <= ts.len(),
            decreases
                match cur {
                    Some(i) => i as int + 1,
                    None => 0,
                },
        {
            let i = cur.unwrap();
            d = d + 1;
            match &self.tasks[i].parent_id {
                Some(p) => {
                    let next = self.find_task(p.as_str());
                    proof {
                        assert(ts[i as int].parent_id == Some(p@));
                    }
                    cur = next;
                },
                None => {
                    cur = None;
                },
            }
        }
        d
    }
}

impl SQLiteState {
    /// Adds a task under an optional parent, blocked by the listed tasks.
    ///
    /// Refused when the parent does not exist, when the parent is already
    /// at depth three, or when a task with the id exists.
    pub fn add_task(
        &mut self,
        task_id: &str,
        name: &str,
        parent_id: Option<&str>,
        blocked_by: Option<&[&str]>,
        now: &str,
    ) -> (r: Result<(), StateError>)
        requires
            old(self).wf(),
        ensures
            final(self).wf(),
            outcome(r) == add_check(old(self)@.tasks, task_id@, opt_str(parent_id)),
            same_but_tasks(final(self)@, old(self)@),
            r is Err ==> final(self)@ == old(self)@,
            r is Ok ==> final(self)@.tasks == old(self)@.tasks.push(
                new_task(task_id@, name@, opt_str(parent_id), opt_list(blocked_by), now@),
            ) && final(self)@.log == old(self)@.log.push(
                (
                    "task_add"@,
                    Some(add_detail(task_id@, name@, opt_str(parent_id), opt_list(blocked_by))),
                ),
            ),
    {
        if let Some(pid) = parent_id {
            let parent_depth = self.get_task_depth(pid);
            if parent_depth == 0 {
                return Err(
                    StateError::NotFound(concat3("Parent task '", pid, "' not found")),
                );
            }
            if parent_depth >= 3 {
                return Err(
                    StateError::InvalidState(
                        concat3("Cannot add child to '", pid, "': max hierarchy depth is 3"),
                    ),
                );
            }
        }
        if self.find_task(task_id).is_some() {
            return Err(StateError::AlreadyExists(concat3("Task '", task_id, "' already exists")));
        }
        let blocked_by_str = match blocked_by {
            Some(b) => Some(join_strs(b, ",")),
            None => None,
        };
        let parent_owned = match parent_id {
            Some(p) => Some(p.to_owned()),
            None => None,
        };
        let task = Task {
            id: task_id.to_owned(),
            name: name.to_owned(),
            status: TaskStatus::Todo,
            created_at: now.to_owned(),
            completed_at: None,
            claimed_by: None,
            claimed_at: None,
            pending_done_at: None,
            tokens_used: None,
            parent_id: parent_owned,
            blocked_by: blocked_by_str,
        };
        let mut detail = concat3(task_id, ": ", name);
        if let Some(pid) = parent_id {
            detail.append(" (parent: ");
            detail.append(pid);
            detail.append(")");
        }
        if let Some(b) = blocked_by {
            let list = join_strs(b, ", ");
            detail.append(" (blocked by: ");
            detail.append(list.as_str());
            detail.append(")");
        }
        let ghost before = self@;
        proof {
            assert(task@ == new_task(
                task_id@,
                name@,
                opt_str(parent_id),
                opt_list(blocked_by),
                now@,
            ));
            lemma_push_keeps_wf(before.tasks, task@);
        }
        self.tasks.push(task);
        self.log.push(LogEntry { action: "task_add".to_owned(), detail: Some(detail) });
        assert(self@.tasks =~= before.tasks.push(
            new_task(task_id@, name@, opt_str(parent_id), opt_list(blocked_by), now@),
        ));
        assert(self@.log =~= before.log.push(
            (
                "task_add"@,
                Some(add_detail(task_id@, name@, opt_str(parent_id), opt_list(blocked_by))),
            ),
        ));
        Ok(())
    }
}

/// Whether `t` is being worked on by `w`.
pub open spec fn held_by(t: TaskView, w: Seq<char>) -> bool {
    t.status == TaskStatus::Doing && t.claimed_by == Some(w)
}

/// Whether the worker `w` holds some task.
pub open spec fn holds_task(ts: Seq<TaskView>, w: Seq<char>) -> bool {
    exists|i: int| 0 <= i < ts.len() && held_by(ts[i], w)
}

/// The first task that `w` holds.
pub open spec fn first_held(ts: Seq<TaskView>, w: Seq<char>) -> int {
    choose|i: int|
        0 <= i < ts.len() && held_by(ts[i], w) && forall|k: int| 0 <= k < i ==> !held_by(
            #[trigger] ts[k],
            w,
        )
}

/// Every worker holds at most one task.
pub open spec fn one_task_per_worker(ts: Seq<TaskView>) -> bool {
    forall|i: int, j: int|
        0 <= i < ts.len() && 0 <= j < ts.len() && i != j && ts[i].status == TaskStatus::Doing
            && ts[j].status == TaskStatus::Doing && ts[i].claimed_by is Some ==> ts[i].claimed_by
            != ts[j].claimed_by
}

/// `t` claimed by `w` at `now`.
pub open spec fn claimed(t: TaskView, w: Seq<char>, now: Seq<char>) -> TaskView {
    TaskView { status: TaskStatus::Doing, claimed_by: Some(w), claimed_at: Some(now), ..t }
}

/// `t` released back to the pool.
pub open spec fn unclaimed(t: TaskView) -> TaskView {
    TaskView { status: TaskStatus::Todo, claimed_by: None, claimed_at: None, ..t }
}

/// `t` completed at `now`.
pub open spec fn completed(t: TaskView, now: Seq<char>) -> TaskView {
    TaskView { status: TaskStatus::Done, completed_at: Some(now), ..t }
}

/// `t` reopened: back to todo, with no claim and no completion time.
pub open spec fn reopened(t: TaskView) -> TaskView {
    TaskView {
        status: TaskStatus::Todo,
        claimed_by: None,
        claimed_at: None,
        completed_at: None,
        ..t
    }
}

/// Message of the error for claiming a task that is not todo.
pub open spec fn msg_not_todo(id: Seq<char>, s: TaskStatus) -> Seq<char> {
    "Task '"@ + id + "' is not TODO (status: "@ + s.name() + ")"@
}

/// Message of the error for claiming a task that has children.
pub open spec fn msg_has_children(id: Seq<char>) -> Seq<char> {
    "Task '"@ + id + "' has children and cannot be claimed directly"@
}

/// Message of the error for a worker that already holds a task.
pub open spec fn msg_already_holds(held: Seq<char>) -> Seq<char> {
    "You already have task '"@ + held + "' claimed. Complete or unclaim it first."@
}

/// Message of the error for a task that the worker does not hold.
pub open spec fn msg_not_held(id: Seq<char>, w: Seq<char>) -> Seq<char> {
    "Task '"@ + id + "' is not claimed by "@ + w
}

/// Message of the error for reopening a task that is not done.
pub open spec fn msg_not_done(id: Seq<char>) -> Seq<char> {
    "Task '"@ + id + "' is not done"@
}

/// Why the worker `w` may not claim the task `id`, if it may not.
pub open spec fn claim_check(ts: Seq<TaskView>, id: Seq<char>, w: Seq<char>) -> Option<
    StateErrorView,
> {
    if !has_task(ts, id) {
        Some(StateErrorView::NotFound(msg_task_not_found(id)))
    } else if ts[task_index(ts, id)].status != TaskStatus::Todo {
        Some(StateErrorView::InvalidState(msg_not_todo(id, ts[task_index(ts, id)].status)))
    } else if has_child(ts, id) {
        Some(StateErrorView::InvalidState(msg_has_children(id)))
    } else if holds_task(ts, w) {
        Some(StateErrorView::InvalidState(msg_already_holds(ts[first_held(ts, w)].id)))
    } else {
        None
    }
}

/// Why the worker `w` may not release or complete the task `id`, if it may
/// not.
pub open spec fn held_check(ts: Seq<TaskView>, id: Seq<char>, w: Seq<char>) -> Option<
    StateErrorView,
> {
    if !has_task(ts, id) {
        Some(StateErrorView::NotFound(msg_task_not_found(id)))
    } else if !held_by(ts[task_index(ts, id)], w) {
        Some(StateErrorView::InvalidState(msg_not_held(id, w)))
    } else {
        None
    }
}

/// Whether `id` has children and all of them are done.
pub open spec fn children_done(ts: Seq<TaskView>, id: Seq<char>) -> bool {
    &&& has_child(ts, id)
    &&& forall|i: int|
        0 <= i < ts.len() && child_of(#[trigger] ts[i], id) ==> ts[i].status == TaskStatus::Done
}

/// Completes the ancestors of a completed task whose children are all done,
/// walking up from `pid`; returns the tasks and the history records written.
/// `fuel` bounds the walk; the length of the task list always suffices.
pub open spec fn settle(ts: Seq<TaskView>, pid: Seq<char>, now: Seq<char>, fuel: nat) -> (
    Seq<TaskView>,
    Seq<(Seq<char>, Option<Seq<char>>)>,
)
    decreases fuel,
{
    if fuel == 0 || !children_done(ts, pid) || !has_task(ts, pid) {
        (ts, Seq::empty())
    } else {
        let j = task_index(ts, pid);
        if ts[j].status == TaskStatus::Done {
            (ts, Seq::empty())
        } else {
            let ts2 = ts.update(j, completed(ts[j], now));
            let e = ("task_done"@, Some(pid + " (auto-completed)"@));
            match ts[j].parent_id {
                Some(g) => {
                    let rest = settle(ts2, g, now, (fuel - 1) as nat);
                    (rest.0, seq![e] + rest.1)
                },
                None => (ts2, seq![e]),
            }
        }
    }
}

/// Tasks with the same ids and parents position by position.
pub open spec fn same_shape(a: Seq<TaskView>, b: Seq<TaskView>) -> bool {
    &&& a.len() == b.len()
    &&& forall|i: int|
        0 <= i < a.len() ==> (#[trigger] a[i]).id == b[i].id && a[i].parent_id == b[i].parent_id
}

/// Changing tasks without touching ids and parents keeps the tree well
/// formed and every task at its position.
pub proof fn lemma_same_shape(a: Seq<TaskView>, b: Seq<TaskView>)
    requires
        tasks_wf(a),
        same_shape(a, b),
    ensures
        tasks_wf(b),
        forall|id: Seq<char>|
            #![trigger has_task(b, id)]
            has_task(b, id) == has_task(a, id) && (has_task(a, id) ==> task_index(b, id)
                == task_index(a, id)),
{
    assert(unique_ids(b)) by {
        assert forall|i: int, j: int|
            0 <= i < b.len() && 0 <= j < b.len() && i != j implies b[i].id != b[j].id by {
            assert(a[i].id == b[i].id && a[j].id == b[j].id);
        }
    }
    assert forall|id: Seq<char>| #![trigger has_task(b, id)]
        has_task(b, id) == has_task(a, id) && (has_task(a, id) ==> task_index(b, id)
            == task_index(a, id)) by {
        if has_task(a, id) {
            let k = task_index(a, id);
            assert(b[k].id == a[k].id);
            lemma_task_index(b, k);
        }
        if has_task(b, id) {
            let k = task_index(b, id);
            assert(b[k].id == a[k].id);
        }
    }
    assert forall|i: int| 0 <= i < b.len() implies match #[trigger] b[i].parent_id {
        Some(p) => has_task(b, p) && task_index(b, p) < i,
        None => true,
    } by {
        assert(a[i].parent_id == b[i].parent_id);
        if let Some(p) = a[i].parent_id {
            assert(has_task(b, p) == has_task(a, p));
        }
    }
}

impl SQLiteState {
    /// Whether `id` has children, and whether all of them are done.
    fn children_state(&self, id: &str) -> (r: (bool, bool))
        ensures
            r.0 == has_child(self@.tasks, id@),
            (r.0 && r.1) == children_done(self@.tasks, id@),
    {
        let mut any = false;
        let mut all = true;
        let mut i: usize = 0;
        while i < self.tasks.len()
            invariant
                i <= self.tasks.len(),
                any == exists|k: int| 0 <= k < i && child_of(#[trigger] self@.tasks[k], id@),
                all == forall|k: int|
                    0 <= k < i && child_of(#[trigger] self@.tasks[k], id@)
                        ==> self@.tasks[k].status == TaskStatus::Done,
            decreases self.tasks.len() - i,
        {
            let mut is_child = false;
            if let Some(p) = &self.tasks[i].parent_id {
                is_child = str_eq(p.as_str(), id);
            }
            assert(is_child == child_of(self@.tasks[i as int], id@));
            if is_child {
                any = true;
                if self.tasks[i].status != TaskStatus::Done {
                    all = false;
                }
            }
            i = i + 1;
        }
        (any, all)
    }

    /// Completes the ancestors of a completed task, from `parent_id`
    /// upwards, while all of an ancestor's children are done.
    fn maybe_complete_parent(&mut self, parent_id: &str, now: &str)
        requires
            old(self).wf(),
        ensures
            final(self).wf(),
            same_but_tasks(final(self)@, old(self)@),
            final(self)@.tasks == settle(
                old(self)@.tasks,
                parent_id@,
                now@,
                old(self)@.tasks.len(),
            ).0,
            final(self)@.log == old(self)@.log + settle(
                old(self)@.tasks,
                parent_id@,
                now@,
                old(self)@.tasks.len(),
            ).1,
    {
        let ghost ts0 = self@.tasks;
        let ghost log0 = self@.log;
        let ghost start = self@;
        let ghost mut fuel: nat = ts0.len();
        let mut cur: String = parent_id.to_owned();
        let mut go = true;
        while go
            invariant
                self.wf(),
                same_but_tasks(self@, start),
                same_shape(ts0, self@.tasks),
                self@.tasks.len() == self.tasks.len(),
                self@.log.len() >= log0.len(),
                self@.log.take(log0.len() as int) == log0,
                settle(ts0, parent_id@, now@, ts0.len()).0 == settle(
                    self@.tasks,
                    cur@,
                    now@,
                    fuel,
                ).0,
                settle(ts0, parent_id@, now@, ts0.len()).1 == self@.log.skip(log0.len() as int)
                    + settle(self@.tasks, cur@, now@, fuel).1,
                has_task(self@.tasks, cur@) ==> task_index(self@.tasks, cur@) < fuel,
                !go ==> settle(self@.tasks, cur@, now@, fuel) == (
                    self@.tasks,
                    Seq::<(Seq<char>, Option<Seq<char>>)>::empty(),
                ),
            decreases fuel + (if go { 1nat } else { 0nat }),
        {
            let (any, all) = self.children_state(cur.as_str());
            if !(any && all) {
                go = false;
            } else {
                match self.find_task(cur.as_str()) {
                    None => {
                        go = false;
                    },
                    Some(j) => {
                        if self.tasks[j].status == TaskStatus::Done {
                            go = false;
                        } else {
                            let ghost ts = self@.tasks;
                            let ghost lg = self@.log;
                            let ghost f = fuel;
                            let ghost c = cur@;
                            let ghost e = ("task_done"@, Some(c + " (auto-completed)"@));
                            self.tasks[j].status = TaskStatus::Done;
                            self.tasks[j].completed_at = Some(now.to_owned());
                            let detail = concat(cur.as_str(), " (auto-completed)");
                            self.log.push(LogEntry { action: "task_done".to_owned(), detail: Some(detail) });
                            let ghost ts2 = ts.update(j as int, completed(ts[j as int], now@));
                            proof {
                                assert(self@.tasks =~= ts2);
                                assert(self@.log =~= lg.push(e));
                                lemma_same_shape(ts, ts2);
                                assert(self@.log.take(log0.len() as int) =~= lg.take(
                                    log0.len() as int,
                                ));
                                assert(self@.log.skip(log0.len() as int) =~= lg.skip(
                                    log0.len() as int,
                                ).push(e));
                            }
                            match &self.tasks[j].parent_id {
                                Some(g) => {
                                    let ghost gv = g@;
                                    proof {
                                        assert(ts[j as int].parent_id == Some(gv));
                                        fuel = (fuel - 1) as nat;
                                        assert(settle(ts, c, now@, f) == (
                                            settle(ts2, gv, now@, fuel).0,
                                            seq![e] + settle(ts2, gv, now@, fuel).1,
                                        ));
                                        assert(lg.skip(log0.len() as int).push(e) + settle(
                                            ts2,
                                            gv,
                                            now@,
                                            fuel,
                                        ).1 =~= lg.skip(log0.len() as int) + (seq![e] + settle(
                                            ts2,
                                            gv,
                                            now@,
                                            fuel,
                                        ).1));
                                    }
                                    cur = g.clone();
                                },
                                None => {
                                    proof {
                                        assert(settle(ts, c, now@, f) == (ts2, seq![e]));
                                        assert(settle(ts2, c, now@, f) == (
                                            ts2,
                                            Seq::<(Seq<char>, Option<Seq<char>>)>::empty(),
                                        ));
                                        assert(lg.skip(log0.len() as int).push(e) =~= lg.skip(
                                            log0.len() as int,
                                        ) + seq![e]);
                                    }
                                    go = false;
                                },
                            }
                        }
                    },
                }
            }
        }
        proof {
            assert(log0 + self@.log.skip(log0.len() as int) =~= self@.log);
        }
    }
}


/// A claim by a worker that holds no task keeps every worker at one task.
pub proof fn lemma_claim_keeps_one_task(ts: Seq<TaskView>, i: int, w: Seq<char>, now: Seq<char>)
    requires
        one_task_per_worker(ts),
        !holds_task(ts, w),
        0 <= i < ts.len(),
    ensures
        one_task_per_worker(ts.update(i, claimed(ts[i], w, now))),
{
    let ts2 = ts.update(i, claimed(ts[i], w, now));
    assert forall|a: int, b: int|
        0 <= a < ts2.len() && 0 <= b < ts2.len() && a != b && ts2[a].status == TaskStatus::Doing
            && ts2[b].status == TaskStatus::Doing && ts2[a].claimed_by is Some implies ts2[a].claimed_by
        != ts2[b].claimed_by by {
        if a == i {
            assert(!held_by(ts[b], w));
        } else if b == i {
            assert(!held_by(ts[a], w));
        } else {
            assert(ts[a] == ts2[a] && ts[b] == ts2[b]);
        }
    }
}

fn not_todo(id: &str, status: TaskStatus) -> (e: StateError)
    ensures
        err_view(e) == StateErrorView::InvalidState(msg_not_todo(id@, status)),
{
    let mut m = concat3("Task '", id, "' is not TODO (status: ");
    m.append(status.as_str());
    m.append(")");
    StateError::InvalidState(m)
}

fn already_holds(held: &str) -> (e: StateError)
    ensures
        err_view(e) == StateErrorView::InvalidState(msg_already_holds(held@)),
{
    StateError::InvalidState(
        concat3("You already have task '", held, "' claimed. Complete or unclaim it first."),
    )
}

fn is_held_by(t: &Task, w: &str) -> (r: bool)
    ensures
        r == held_by(t@, w@),
{
    match &t.claimed_by {
        Some(c) => t.status == TaskStatus::Doing && str_eq(c.as_str(), w),
        None => false,
    }
}

/// The history detail "`a` by `b`".
pub open spec fn by_detail(a: Seq<char>, b: Seq<char>) -> Seq<char> {
    a + " by "@ + b
}

impl SQLiteState {
    /// Position of the first task that the worker holds, if any.
    fn find_held(&self, worker_name: &str) -> (r: Option<usize>)
        ensures
            match r {
                Some(k) => k < self.tasks.len() && holds_task(self@.tasks, worker_name@)
                    && first_held(self@.tasks, worker_name@) == k,
                None => !holds_task(self@.tasks, worker_name@),
            },
    {
        let mut k: usize = 0;
        while k < self.tasks.len()
            invariant
                k <= self.tasks.len(),
                forall|j: int| 0 <= j < k ==> !held_by(#[trigger] self@.tasks[j], worker_name@),
            decreases self.tasks.len() - k,
        {
            if is_held_by(&self.tasks[k], worker_name) {
                proof {
                    let ts = self@.tasks;
                    assert(held_by(ts[k as int], worker_name@));
                    let c = first_held(ts, worker_name@);
                    assert(0 <= c < ts.len() && held_by(ts[c], worker_name@));
                    if c < k {
                        assert(!held_by(ts[c], worker_name@));
                    }
                    if c > k {
                        assert(!held_by(ts[k as int], worker_name@));
                    }
                }
                return Some(k);
            }
            k = k + 1;
        }
        None
    }

    /// The task that the worker holds, if any.
    pub fn get_claimed_task(&self, worker_name: &str) -> (r: Option<Task>)
        ensures
            match r {
                Some(t) => holds_task(self@.tasks, worker_name@) && t@ == self@.tasks[first_held(
                    self@.tasks,
                    worker_name@,
                )],
                None => !holds_task(self@.tasks, worker_name@),
            },
    {
        match self.find_held(worker_name) {
            Some(k) => Some(self.tasks[k].clone()),
            None => None,
        }
    }

    /// Position of the task `task_id` when the worker may claim it; the
    /// reason why not otherwise.
    fn check_claim(&self, task_id: &str, worker_name: &str) -> (r: Result<usize, StateError>)
        requires
            self.wf(),
        ensures
            match r {
                Ok(i) => claim_check(self@.tasks, task_id@, worker_name@) is None && has_task(
                    self@.tasks,
                    task_id@,
                ) && i == task_index(self@.tasks, task_id@) && i < self.tasks.len(),
                Err(e) => claim_check(self@.tasks, task_id@, worker_name@) == Some(err_view(e)),
            },
    {
        let i = match self.find_task(task_id) {
            None => return Err(not_found(task_id)),
            Some(i) => i,
        };
        let ghost ts = self@.tasks;
        assert(ts[i as int] == self.tasks@[i as int]@);
        if self.tasks[i].status != TaskStatus::Todo {
            return Err(not_todo(task_id, self.tasks[i].status));
        }
        if self.has_children(task_id) {
            return Err(
                StateError::InvalidState(
                    concat3("Task '", task_id, "' has children and cannot be claimed directly"),
                ),
            );
        }
        if let Some(k) = self.find_held(worker_name) {
            assert(ts[k as int].id == self.tasks@[k as int].id@);
            return Err(already_holds(self.tasks[k].id.as_str()));
        }
        Ok(i)
    }

    /// The worker `worker_name` claims the task `task_id` at `now`.
    ///
    /// Refused when the task does not exist, is not todo, has children, or
    /// when the worker already holds a task.
    pub fn claim_task(&mut self, task_id: &str, worker_name: &str, now: &str) -> (r: Result<
        (),
        StateError,
    >)
        requires
            old(self).wf(),
        ensures
            final(self).wf(),
            same_but_tasks(final(self)@, old(self)@),
            outcome(r) == claim_check(old(self)@.tasks, task_id@, worker_name@),
            r is Err ==> final(self)@ == old(self)@,
            r is Ok ==> final(self)@.tasks == old(self)@.tasks.update(
                task_index(old(self)@.tasks, task_id@),
                claimed(
                    old(self)@.tasks[task_index(old(self)@.tasks, task_id@)],
                    worker_name@,
                    now@,
                ),
            ) && final(self)@.log == old(self)@.log.push(
                ("task_claim"@, Some(by_detail(task_id@, worker_name@))),
            ),
            one_task_per_worker(old(self)@.tasks) ==> one_task_per_worker(final(self)@.tasks),
    {
        let i = match self.check_claim(task_id, worker_name) {
            Err(e) => return Err(e),
            Ok(i) => i,
        };
        let ghost before = self@;
        self.tasks[i].status = TaskStatus::Doing;
        self.tasks[i].claimed_by = Some(worker_name.to_owned());
        self.tasks[i].claimed_at = Some(now.to_owned());
        let detail = concat3(task_id, " by ", worker_name);
        self.log.push(LogEntry { action: "task_claim".to_owned(), detail: Some(detail) });
        proof {
            let ts2 = before.tasks.update(i as int, claimed(before.tasks[i as int], worker_name@, now@));
            assert(self@.tasks =~= ts2);
            assert(self@.log =~= before.log.push(
                ("task_claim"@, Some(by_detail(task_id@, worker_name@))),
            ));
            lemma_same_shape(before.tasks, ts2);
            if one_task_per_worker(before.tasks) {
                lemma_claim_keeps_one_task(before.tasks, i as int, worker_name@, now@);
            }
        }
        Ok(())
    }

    /// The worker `worker_name` releases the task `task_id` back to todo.
    ///
    /// Refused when the task does not exist or the worker does not hold it.
    pub fn unclaim_task(&mut self, task_id: &str, worker_name: &str) -> (r: Result<
        (),
        StateError,
    >)
        requires
            old(self).wf(),
        ensures
            final(self).wf(),
            same_but_tasks(final(self)@, old(self)@),
            outcome(r) == held_check(old(self)@.tasks, task_id@, worker_name@),
            r is Err ==> final(self)@ == old(self)@,
            r is Ok ==> final(self)@.tasks == old(self)@.tasks.update(
                task_index(old(self)@.tasks, task_id@),
                unclaimed(old(self)@.tasks[task_index(old(self)@.tasks, task_id@)]),
            ) && final(self)@.log == old(self)@.log.push(
                ("task_unclaim"@, Some(by_detail(task_id@, worker_name@))),
            ),
    {
        let i = match self.find_task(task_id) {
            None => return Err(not_found(task_id)),
            Some(i) => i,
        };
        if !is_held_by(&self.tasks[i], worker_name) {
            return Err(
                StateError::InvalidState(concat3("Task '", task_id, "' is not claimed by ").concat(
                    worker_name,
                )),
            );
        }
        let ghost before = self@;
        self.tasks[i].status = TaskStatus::Todo;
        self.tasks[i].claimed_by = None;
        self.tasks[i].claimed_at = None;
        let detail = concat3(task_id, " by ", worker_name);
        self.log.push(LogEntry { action: "task_unclaim".to_owned(), detail: Some(detail) });
        proof {
            let ts2 = before.tasks.update(i as int, unclaimed(before.tasks[i as int]));
            assert(self@.tasks =~= ts2);
            assert(self@.log =~= before.log.push(
                ("task_unclaim"@, Some(by_detail(task_id@, worker_name@))),
            ));
            lemma_same_shape(before.tasks, ts2);
        }
        Ok(())
    }

    /// The worker `worker_name` completes the task `task_id` at `now`; each
    /// ancestor whose children are then all done is completed too.
    ///
    /// Refused when the task does not exist or the worker does not hold it.
    pub fn complete_task(&mut self, task_id: &str, worker_name: &str, now: &str) -> (r: Result<
        (),
        StateError,
    >)
        requires
            old(self).wf(),
        ensures
            final(self).wf(),
            same_but_tasks(final(self)@, old(self)@),
            outcome(r) == held_check(old(self)@.tasks, task_id@, worker_name@),
            r is Err ==> final(self)@ == old(self)@,
            r is Ok ==> ({
                let ts = old(self)@.tasks;
                let i = task_index(ts, task_id@);
                let ts2 = ts.update(i, completed(ts[i], now@));
                let e = ("task_done"@, Some(by_detail(task_id@, worker_name@)));
                match ts[i].parent_id {
                    Some(p) => final(self)@.tasks == settle(ts2, p, now@, ts2.len()).0
                        && final(self)@.log == old(self)@.log.push(e) + settle(
                        ts2,
                        p,
                        now@,
                        ts2.len(),
                    ).1,
                    None => final(self)@.tasks == ts2 && final(self)@.log == old(
                        self,
                    )@.log.push(e),
                }
            }),
    {
        let i = match self.find_task(task_id) {
            None => return Err(not_found(task_id)),
            Some(i) => i,
        };
        if !is_held_by(&self.tasks[i], worker_name) {
            return Err(
                StateError::InvalidState(concat3("Task '", task_id, "' is not claimed by ").concat(
                    worker_name,
                )),
            );
        }
        let ghost before = self@;
        self.tasks[i].status = TaskStatus::Done;
        self.tasks[i].completed_at = Some(now.to_owned());
        let detail = concat3(task_id, " by ", worker_name);
        self.log.push(LogEntry { action: "task_done".to_owned(), detail: Some(detail) });
        proof {
            let ts2 = before.tasks.update(i as int, completed(before.tasks[i as int], now@));
            assert(self@.tasks =~= ts2);
            assert(self@.log =~= before.log.push(
                ("task_done"@, Some(by_detail(task_id@, worker_name@))),
            ));
            lemma_same_shape(before.tasks, ts2);
        }
        let parent = clone_opt(&self.tasks[i].parent_id);
        if let Some(p) = parent {
            self.maybe_complete_parent(p.as_str(), now);
        }
        Ok(())
    }

    /// Completes the task `task_id` at `now` on behalf of an administrator,
    /// whoever holds it; ancestors whose children are then all done are
    /// completed too. A task that is already done stays as it is.
    ///
    /// Refused only when the task does not exist.
    pub fn admin_complete_task(&mut self, task_id: &str, now: &str) -> (r: Result<(), StateError>)
        requires
            old(self).wf(),
        ensures
            final(self).wf(),
            same_but_tasks(final(self)@, old(self)@),
            outcome(r) == (if has_task(old(self)@.tasks, task_id@) {
                None
            } else {
                Some(StateErrorView::NotFound(msg_task_not_found(task_id@)))
            }),
            r is Err ==> final(self)@ == old(self)@,
            r is Ok ==> ({
                let ts = old(self)@.tasks;
                let i = task_index(ts, task_id@);
                let ts2 = ts.update(i, completed(ts[i], now@));
                let e = ("task_done"@, Some(task_id@ + " (admin)"@));
                if ts[i].status == TaskStatus::Done {
                    final(self)@ == old(self)@
                } else {
                    match ts[i].parent_id {
                        Some(p) => final(self)@.tasks == settle(ts2, p, now@, ts2.len()).0
                            && final(self)@.log == old(self)@.log.push(e) + settle(
                            ts2,
                            p,
                            now@,
                            ts2.len(),
                        ).1,
                        None => final(self)@.tasks == ts2 && final(self)@.log == old(
                            self,
                        )@.log.push(e),
                    }
                }
            }),
    {
        let i = match self.find_task(task_id) {
            None => return Err(not_found(task_id)),
            Some(i) => i,
        };
        if self.tasks[i].status == TaskStatus::Done {
            return Ok(());
        }
        let ghost before = self@;
        self.tasks[i].status = TaskStatus::Done;
        self.tasks[i].completed_at = Some(now.to_owned());
        let detail = concat(task_id, " (admin)");
        self.log.push(LogEntry { action: "task_done".to_owned(), detail: Some(detail) });
        proof {
            let ts2 = before.tasks.update(i as int, completed(before.tasks[i as int], now@));
            assert(self@.tasks =~= ts2);
            assert(self@.log =~= before.log.push(("task_done"@, Some(task_id@ + " (admin)"@))));
            lemma_same_shape(before.tasks, ts2);
        }
        let parent = clone_opt(&self.tasks[i].parent_id);
        if let Some(p) = parent {
            self.maybe_complete_parent(p.as_str(), now);
        }
        Ok(())
    }

    /// Releases the task `task_id` on behalf of an administrator, whoever
    /// holds it. A task that is not in progress stays as it is.
    ///
    /// Refused only when the task does not exist.
    pub fn admin_unclaim_task(&mut self, task_id: &str) -> (r: Result<(), StateError>)
        requires
            old(self).wf(),
        ensures
            final(self).wf(),
            same_but_tasks(final(self)@, old(self)@),
            outcome(r) == (if has_task(old(self)@.tasks, task_id@) {
                None
            } else {
                Some(StateErrorView::NotFound(msg_task_not_found(task_id@)))
            }),
            r is Err ==> final(self)@ == old(self)@,
            r is Ok ==> ({
                let ts = old(self)@.tasks;
                let i = task_index(ts, task_id@);
                if ts[i].status != TaskStatus::Doing {
                    final(self)@ == old(self)@
                } else {
                    final(self)@.tasks == ts.update(i, unclaimed(ts[i])) && final(self)@.log
                        == old(self)@.log.push(("task_unclaim"@, Some(task_id@ + " (admin)"@)))
                }
            }),
    {
        let i = match self.find_task(task_id) {
            None => return Err(not_found(task_id)),
            Some(i) => i,
        };
        if self.tasks[i].status != TaskStatus::Doing {
            return Ok(());
        }
        let ghost before = self@;
        self.tasks[i].status = TaskStatus::Todo;
        self.tasks[i].claimed_by = None;
        self.tasks[i].claimed_at = None;
        let detail = concat(task_id, " (admin)");
        self.log.push(LogEntry { action: "task_unclaim".to_owned(), detail: Some(detail) });
        proof {
            let ts2 = before.tasks.update(i as int, unclaimed(before.tasks[i as int]));
            assert(self@.tasks =~= ts2);
            assert(self@.log =~= before.log.push(("task_unclaim"@, Some(task_id@ + " (admin)"@))));
            lemma_same_shape(before.tasks, ts2);
        }
        Ok(())
    }

    /// Reopens the completed task `task_id`: back to todo, with no claim and
    /// no completion time.
    ///
    /// Refused when the task does not exist or is not done.
    pub fn reopen_task(&mut self, task_id: &str) -> (r: Result<(), StateError>)
        requires
            old(self).wf(),
        ensures
            final(self).wf(),
            same_but_tasks(final(self)@, old(self)@),
            outcome(r) == (if !has_task(old(self)@.tasks, task_id@) {
                Some(StateErrorView::NotFound(msg_task_not_found(task_id@)))
            } else if old(self)@.tasks[task_index(old(self)@.tasks, task_id@)].status
                != TaskStatus::Done {
                Some(StateErrorView::InvalidState(msg_not_done(task_id@)))
            } else {
                None
            }),
            r is Err ==> final(self)@ == old(self)@,
            r is Ok ==> final(self)@.tasks == old(self)@.tasks.update(
                task_index(old(self)@.tasks, task_id@),
                reopened(old(self)@.tasks[task_index(old(self)@.tasks, task_id@)]),
            ) && final(self)@.log == old(self)@.log.push(("task_reopen"@, Some(task_id@))),
    {
        let i = match self.find_task(task_id) {
            None => return Err(not_found(task_id)),
            Some(i) => i,
        };
        if self.tasks[i].status != TaskStatus::Done {
            return Err(StateError::InvalidState(concat3("Task '", task_id, "' is not done")));
        }
        let ghost before = self@;
        self.tasks[i].status = TaskStatus::Todo;
        self.tasks[i].claimed_by = None;
        self.tasks[i].claimed_at = None;
        self.tasks[i].completed_at = None;
        self.log.push(
            LogEntry { action: "task_reopen".to_owned(), detail: Some(task_id.to_owned()) },
        );
        proof {
            let ts2 = before.tasks.update(i as int, reopened(before.tasks[i as int]));
            assert(self@.tasks =~= ts2);
            assert(self@.log =~= before.log.push(("task_reopen"@, Some(task_id@))));
            lemma_same_shape(before.tasks, ts2);
        }
        Ok(())
    }
}


/// Whether the task at position `i` is `root` or lies below it.
pub open spec fn in_subtree(ts: Seq<TaskView>, i: int, root: Seq<char>) -> bool
    decreases i,
{
    if !(0 <= i < ts.len()) {
        false
    } else if ts[i].id == root {
        true
    } else {
        match ts[i].parent_id {
            Some(p) => has_task(ts, p) && 0 <= task_index(ts, p) < i && in_subtree(
                ts,
                task_index(ts, p),
                root,
            ),
            None => false,
        }
    }
}

/// Whether deleting `root` deletes the task `k`: `k` is `root` or one of
/// its descendants.
pub open spec fn doomed(ts: Seq<TaskView>, root: Seq<char>, k: Seq<char>) -> bool {
    has_task(ts, k) && in_subtree(ts, task_index(ts, k), root)
}

/// `t` with the deleted tasks taken out of its blocker list. The list is
/// rewritten only when its item count differs from its raw segment count.
pub open spec fn pruned(ts: Seq<TaskView>, root: Seq<char>, t: TaskView) -> TaskView {
    match t.blocked_by {
        Some(b) => {
            let kept = list_items(b).filter(|k: Seq<char>| !doomed(ts, root, k));
            if kept.len() != segments(b).len() {
                TaskView {
                    blocked_by: if kept.len() == 0 {
                        None
                    } else {
                        Some(joined(kept, ","@))
                    },
                    ..t
                }
            } else {
                t
            }
        },
        None => t,
    }
}

/// The tasks that remain after deleting `root`, with their blocker lists
/// pruned.
pub open spec fn after_delete(ts: Seq<TaskView>, root: Seq<char>) -> Seq<TaskView> {
    ts.filter(|t: TaskView| !doomed(ts, root, t.id)).map_values(
        |t: TaskView| pruned(ts, root, t),
    )
}

/// How many tasks deleting `root` deletes.
pub open spec fn doomed_count(ts: Seq<TaskView>, root: Seq<char>) -> nat {
    ts.filter(|t: TaskView| doomed(ts, root, t.id)).len()
}

/// The history detail of deleting `root` together with `n` tasks in all.
pub open spec fn delete_detail(root: Seq<char>, n: nat) -> Seq<char> {
    if n > 1 {
        root + " (and "@ + decimal((n - 1) as nat) + " children)"@
    } else {
        root
    }
}

/// Message of the error for deleting a task in progress.
pub open spec fn msg_claimed(id: Seq<char>) -> Seq<char> {
    "Task '"@ + id + "' is currently claimed and cannot be deleted"@
}

/// Message of the error for deleting a task with a descendant in progress.
pub open spec fn msg_child_claimed(id: Seq<char>) -> Seq<char> {
    "Child task '"@ + id + "' is currently claimed and cannot be deleted"@
}

/// Whether some task that deleting `root` would delete is in progress.
pub open spec fn doomed_in_progress(ts: Seq<TaskView>, root: Seq<char>) -> bool {
    exists|j: int|
        0 <= j < ts.len() && in_subtree(ts, j, root) && ts[j].status == TaskStatus::Doing
}

impl SQLiteState {
    /// Marks, position by position, the tasks that deleting `root` deletes.
    fn subtree_mask(&self, root: &str) -> (m: Vec<bool>)
        requires
            self.wf(),
        ensures
            m.len() == self.tasks.len(),
            forall|j: int| 0 <= j < m.len() ==> m@[j] == in_subtree(self@.tasks, j, root@),
    {
        let ghost ts = self@.tasks;
        let mut m: Vec<bool> = Vec::new();
        let mut j: usize = 0;
        while j < self.tasks.len()
            invariant
                self.wf(),
                ts == self@.tasks,
                j <= self.tasks.len(),
                m.len() == j,
                forall|q: int| 0 <= q < j ==> m@[q] == in_subtree(ts, q, root@),
            decreases self.tasks.len() - j,
        {
            let mut hit = str_eq(self.tasks[j].id.as_str(), root);
            if !hit {
                if let Some(p) = &self.tasks[j].parent_id {
                    match self.find_task(p.as_str()) {
                        Some(q) => {
                            proof {
                                assert(ts[j as int].parent_id == Some(p@));
                            }
                            hit = m[q];
                        },
                        None => {},
                    }
                }
            }
            assert(hit == in_subtree(ts, j as int, root@));
            m.push(hit);
            j = j + 1;
        }
        m
    }

    /// Whether the task `k` is among those marked in `mask`.
    fn marked(&self, mask: &Vec<bool>, k: &str) -> (r: bool)
        requires
            self.wf(),
            mask.len() == self.tasks.len(),
        ensures
            r == (has_task(self@.tasks, k@) && mask@[task_index(self@.tasks, k@)]),
    {
        match self.find_task(k) {
            Some(q) => mask[q],
            None => false,
        }
    }

    /// The task at position `j` with the marked tasks taken out of its
    /// blocker list.
    fn pruned_copy(&self, mask: &Vec<bool>, j: usize, Ghost(root): Ghost<Seq<char>>) -> (t: Task)
        requires
            self.wf(),
            j < self.tasks.len(),
            mask.len() == self.tasks.len(),
            forall|q: int| 0 <= q < mask.len() ==> mask@[q] == in_subtree(self@.tasks, q, root),
        ensures
            t@ == pruned(self@.tasks, root, self@.tasks[j as int]),
    {
        let ghost ts = self@.tasks;
        let ghost keep = |k: Seq<char>| !doomed(ts, root, k);
        let mut t = self.tasks[j].clone();
        if let Some(b) = &self.tasks[j].blocked_by {
            let items = split_list(b.as_str());
            let mut kept: Vec<String> = Vec::new();
            let mut k: usize = 0;
            proof {
                reveal(Seq::filter);
                assert(views(items@).take(0).filter(keep) =~= Seq::<Seq<char>>::empty());
                assert(views(kept@) =~= Seq::<Seq<char>>::empty());
            }
            while k < items.len()
                invariant
                    self.wf(),
                    ts == self@.tasks,
                    mask.len() == self.tasks.len(),
                    forall|q: int| 0 <= q < mask.len() ==> mask@[q] == in_subtree(ts, q, root),
                    k <= items.len(),
                    keep == (|k: Seq<char>| !doomed(ts, root, k)),
                    views(kept@) == views(items@).take(k as int).filter(keep),
                decreases items.len() - k,
            {
                let ghost pre = views(items@).take(k as int);
                proof {
                    assert(views(items@).take(k as int + 1) =~= pre.push(items@[k as int]@));
                    pre.lemma_filter_push(items@[k as int]@, keep);
                }
                let gone = self.marked(mask, items[k].as_str());
                if !gone {
                    let ghost before = views(kept@);
                    kept.push(items[k].clone());
                    assert(views(kept@) =~= before.push(items@[k as int]@));
                }
                k = k + 1;
            }
            assert(views(items@).take(k as int) =~= views(items@));
            let commas = comma_count(b.as_str());
            if !(kept.len() > 0 && kept.len() - 1 == commas) {
                if kept.len() == 0 {
                    t.blocked_by = None;
                } else {
                    t.blocked_by = Some(join(&kept, ","));
                }
            }
        }
        t
    }

    /// Deletes the task `task_id` and all its descendants, and takes them
    /// out of the blocker lists of the tasks that remain.
    ///
    /// Refused when the task does not exist, or when it or one of its
    /// descendants is in progress.
    #[verifier::rlimit(30)]
    pub fn delete_task(&mut self, task_id: &str) -> (r: Result<(), StateError>)
        requires
            old(self).wf(),
        ensures
            final(self).wf(),
            same_but_tasks(final(self)@, old(self)@),
            ({
                let ts = old(self)@.tasks;
                if !has_task(ts, task_id@) {
                    outcome(r) == Some(StateErrorView::NotFound(msg_task_not_found(task_id@)))
                } else if ts[task_index(ts, task_id@)].status == TaskStatus::Doing {
                    outcome(r) == Some(StateErrorView::InvalidState(msg_claimed(task_id@)))
                } else if doomed_in_progress(ts, task_id@) {
                    exists|j: int|
                        0 <= j < ts.len() && in_subtree(ts, j, task_id@) && ts[j].status
                            == TaskStatus::Doing && outcome(r) == Some(
                            StateErrorView::InvalidState(msg_child_claimed(ts[j].id)),
                        )
                } else {
                    r is Ok
                }
            }),
            r is Err ==> final(self)@ == old(self)@,
            r is Ok ==> final(self)@.tasks == after_delete(old(self)@.tasks, task_id@)
                && final(self)@.log == old(self)@.log.push(
                ("task_delete"@, Some(delete_detail(task_id@, doomed_count(old(self)@.tasks, task_id@)))),
            ),
    {
        let ghost ts = self@.tasks;
        let i = match self.find_task(task_id) {
            None => return Err(not_found(task_id)),
            Some(i) => i,
        };
        if self.tasks[i].status == TaskStatus::Doing {
            return Err(
                StateError::InvalidState(
                    concat3("Task '", task_id, "' is currently claimed and cannot be deleted"),
                ),
            );
        }
        let mask = self.subtree_mask(task_id);
        let mut j: usize = 0;
        while j < self.tasks.len()
            invariant
                ts == self@.tasks,
                mask.len() == self.tasks.len(),
                forall|q: int| 0 <= q < mask.len() ==> mask@[q] == in_subtree(ts, q, task_id@),
                self.wf(),
                has_task(ts, task_id@),
                ts[task_index(ts, task_id@)].status != TaskStatus::Doing,
                j <= self.tasks.len(),
                forall|q: int|
                    0 <= q < j ==> !(in_subtree(ts, q, task_id@) && #[trigger] ts[q].status
                        == TaskStatus::Doing),
            decreases self.tasks.len() - j,
        {
            if mask[j] && self.tasks[j].status == TaskStatus::Doing {
                assert(doomed_in_progress(ts, task_id@));
                return Err(
                    StateError::InvalidState(
                        concat3(
                            "Child task '",
                            self.tasks[j].id.as_str(),
                            "' is currently claimed and cannot be deleted",
                        ),
                    ),
                );
            }
            j = j + 1;
        }
        let ghost keep = |t: TaskView| !doomed(ts, task_id@, t.id);
        let ghost gone = |t: TaskView| doomed(ts, task_id@, t.id);
        let ghost pr = |t: TaskView| pruned(ts, task_id@, t);
        let mut remaining: Vec<Task> = Vec::new();
        let mut count: usize = 0;
        let ghost mut origin: Seq<int> = Seq::empty();
        j = 0;
        proof {
            reveal(Seq::filter);
            assert(ts.take(0).filter(keep) =~= Seq::<TaskView>::empty());
            assert(ts.take(0).filter(gone) =~= Seq::<TaskView>::empty());
            assert(tviews(remaining@) =~= Seq::<TaskView>::empty());
        }
        while j < self.tasks.len()
            invariant
                self.wf(),
                ts == self@.tasks,
                mask.len() == self.tasks.len(),
                forall|q: int| 0 <= q < mask.len() ==> mask@[q] == in_subtree(ts, q, task_id@),
                j <= self.tasks.len(),
                keep == (|t: TaskView| !doomed(ts, task_id@, t.id)),
                gone == (|t: TaskView| doomed(ts, task_id@, t.id)),
                pr == (|t: TaskView| pruned(ts, task_id@, t)),
                tviews(remaining@) == ts.take(j as int).filter(keep).map_values(pr),
                count == ts.take(j as int).filter(gone).len(),
                count <= j,
                tasks_wf(tviews(remaining@)),
                origin.len() == remaining.len(),
                forall|a: int|
                    0 <= a < origin.len() ==> 0 <= origin[a] < j && (#[trigger] tviews(
                        remaining@,
                    )[a]).id == ts[origin[a]].id,
                forall|q: int|
                    0 <= q < j && !in_subtree(ts, q, task_id@) ==> has_task(
                        tviews(remaining@),
                        #[trigger] ts[q].id,
                    ),
            decreases self.tasks.len() - j,
        {
            let ghost pre = ts.take(j as int);
            let ghost x = ts[j as int];
            proof {
                assert(ts.take(j as int + 1) =~= pre.push(x));
                pre.lemma_filter_push(x, keep);
                pre.lemma_filter_push(x, gone);
                lemma_task_index(ts, j as int);
                assert(keep(x) == !mask@[j as int]);
            }
            if mask[j] {
                count = count + 1;
            } else {
                let t = self.pruned_copy(&mask, j, Ghost(task_id@));
                let ghost before = tviews(remaining@);
                proof {
                    assert(pre.filter(keep).push(x).map_values(pr) =~= pre.filter(keep).map_values(
                        pr,
                    ).push(pr(x)));
                    assert(!has_task(before, x.id)) by {
                        if has_task(before, x.id) {
                            let a = task_index(before, x.id);
                            assert(ts[origin[a]].id == x.id);
                        }
                    }
                    if let Some(p) = x.parent_id {
                        let q = task_index(ts, p);
                        assert(ts[j as int].parent_id == Some(p));
                        assert(q < j);
                        assert(ts[q].id == p);
                        assert(!in_subtree(ts, q, task_id@));
                        assert(has_task(before, ts[q].id));
                    }
                    lemma_push_keeps_wf(before, t@);
                }
                remaining.push(t);
                proof {
                    assert(tviews(remaining@) =~= before.push(pr(x)));
                    origin = origin.push(j as int);
                    assert forall|q: int|
                        0 <= q < j + 1 && !in_subtree(ts, q, task_id@) implies has_task(
                        tviews(remaining@),
                        #[trigger] ts[q].id,
                    ) by {
                        if q == j {
                            assert(tviews(remaining@)[before.len() as int].id == x.id);
                        } else {
                            let a = task_index(before, ts[q].id);
                            assert(tviews(remaining@)[a] == before[a]);
                        }
                    }
                }
            }
            j = j + 1;
        }
        proof {
            assert(ts.take(j as int) =~= ts);
        }
        let mut detail = task_id.to_owned();
        if count > 1 {
            detail.append(" (and ");
            let n = to_decimal((count - 1) as u64);
            detail.append(n.as_str());
            detail.append(" children)");
        }
        let ghost before = self@;
        self.tasks = remaining;
        self.log.push(LogEntry { action: "task_delete".to_owned(), detail: Some(detail) });
        proof {
            assert(self@.log =~= before.log.push(
                ("task_delete"@, Some(delete_detail(task_id@, doomed_count(ts, task_id@)))),
            ));
        }
        Ok(())
    }
}


/// Whether `k` names a task that exists and is not done.
pub open spec fn open_blocker(ts: Seq<TaskView>, k: Seq<char>) -> bool {
    has_task(ts, k) && ts[task_index(ts, k)].status != TaskStatus::Done
}

/// Whether one of the tasks that `t` lists as blockers exists and is not
/// done.
pub open spec fn blocked(ts: Seq<TaskView>, t: TaskView) -> bool {
    match t.blocked_by {
        Some(b) => list_blocked(ts, b),
        None => false,
    }
}

/// Whether an item of the blocker list `b` exists and is not done.
pub open spec fn list_blocked(ts: Seq<TaskView>, b: Seq<char>) -> bool {
    exists|k: int| 0 <= k < list_items(b).len() && open_blocker(ts, #[trigger] list_items(b)[k])
}

/// The blockers of `t` that exist and are not done, in list order.
pub open spec fn open_blockers(ts: Seq<TaskView>, t: TaskView) -> Seq<Seq<char>> {
    match t.blocked_by {
        Some(b) => list_items(b).filter(|k: Seq<char>| open_blocker(ts, k)),
        None => Seq::empty(),
    }
}

/// Whether a worker may pick `t` up: todo, unclaimed, not the scope task,
/// and not blocked.
pub open spec fn claimable(ts: Seq<TaskView>, t: TaskView) -> bool {
    &&& t.status == TaskStatus::Todo
    &&& t.claimed_by is None
    &&& t.id != "scope"@
    &&& !blocked(ts, t)
}

impl SQLiteState {
    /// Whether `k` names a task that exists and is not done.
    fn is_open_blocker(&self, k: &str) -> (r: bool)
        requires
            self.wf(),
        ensures
            r == open_blocker(self@.tasks, k@),
    {
        match self.find_task(k) {
            Some(q) => self.tasks[q].status != TaskStatus::Done,
            None => false,
        }
    }

    /// Whether the task at position `i` is blocked.
    fn blocked_at(&self, i: usize) -> (r: bool)
        requires
            self.wf(),
            i < self.tasks.len(),
        ensures
            r == blocked(self@.tasks, self@.tasks[i as int]),
    {
        let ghost ts = self@.tasks;
        match &self.tasks[i].blocked_by {
            None => false,
            Some(b) => {
                assert(ts[i as int].blocked_by == Some(b@));
                let items = split_list(b.as_str());
                let mut k: usize = 0;
                while k < items.len()
                    invariant
                        self.wf(),
                        ts == self@.tasks,
                        i < ts.len(),
                        ts[i as int].blocked_by == Some(b@),
                        views(items@) == list_items(b@),
                        k <= items.len(),
                        forall|q: int| 0 <= q < k ==> !open_blocker(ts, #[trigger] list_items(b@)[q]),
                    decreases items.len() - k,
                {
                    if self.is_open_blocker(items[k].as_str()) {
                        assert(list_items(b@)[k as int] == items@[k as int]@);
                        assert(open_blocker(ts, list_items(b@)[k as int]));
                        assert(0 <= k < list_items(b@).len());
                        assert(list_blocked(ts, b@));
                        return true;
                    }
                    k = k + 1;
                }
                false
            },
        }
    }

    /// Whether the task `task_id` waits on a blocker that is not done. A
    /// task that does not exist is not blocked.
    pub fn is_task_blocked(&self, task_id: &str) -> (r: bool)
        requires
            self.wf(),
        ensures
            r == (has_task(self@.tasks, task_id@) && blocked(
                self@.tasks,
                self@.tasks[task_index(self@.tasks, task_id@)],
            )),
    {
        match self.find_task(task_id) {
            Some(i) => self.blocked_at(i),
            None => false,
        }
    }

    /// The blockers of the task `task_id` that exist and are not done, in
    /// list order; none for a task that does not exist.
    pub fn get_blockers(&self, task_id: &str) -> (r: Vec<String>)
        requires
            self.wf(),
        ensures
            views(r@) == (if has_task(self@.tasks, task_id@) {
                open_blockers(self@.tasks, self@.tasks[task_index(self@.tasks, task_id@)])
            } else {
                Seq::empty()
            }),
    {
        let ghost ts = self@.tasks;
        let i = match self.find_task(task_id) {
            Some(i) => i,
            None => {
                let empty: Vec<String> = Vec::new();
                assert(views(empty@) =~= Seq::<Seq<char>>::empty());
                return empty;
            },
        };
        let mut out: Vec<String> = Vec::new();
        match &self.tasks[i].blocked_by {
            None => {
                assert(views(out@) =~= Seq::<Seq<char>>::empty());
            },
            Some(b) => {
                let ghost pred = |k: Seq<char>| open_blocker(ts, k);
                let items = split_list(b.as_str());
                let mut k: usize = 0;
                proof {
                    reveal(Seq::filter);
                    assert(views(items@).take(0).filter(pred) =~= Seq::<Seq<char>>::empty());
                    assert(views(out@) =~= Seq::<Seq<char>>::empty());
                }
                while k < items.len()
                    invariant
                        self.wf(),
                        ts == self@.tasks,
                        k <= items.len(),
                        pred == (|k: Seq<char>| open_blocker(ts, k)),
                        views(out@) == views(items@).take(k as int).filter(pred),
                    decreases items.len() - k,
                {
                    let ghost pre = views(items@).take(k as int);
                    proof {
                        assert(views(items@).take(k as int + 1) =~= pre.push(items@[k as int]@));
                        pre.lemma_filter_push(items@[k as int]@, pred);
                    }
                    if self.is_open_blocker(items[k].as_str()) {
                        let ghost before = views(out@);
                        out.push(items[k].clone());
                        assert(views(out@) =~= before.push(items@[k as int]@));
                    }
                    k = k + 1;
                }
                assert(views(items@).take(k as int) =~= views(items@));
            },
        }
        out
    }

    /// The tasks a worker may pick up, in order of creation.
    pub fn get_claimable_tasks(&self) -> (r: Vec<Task>)
        requires
            self.wf(),
        ensures
            tviews(r@) == self@.tasks.filter(|t: TaskView| claimable(self@.tasks, t)),
    {
        let ghost ts = self@.tasks;
        let ghost pred = |t: TaskView| claimable(ts, t);
        let mut r: Vec<Task> = Vec::new();
        let mut i: usize = 0;
        proof {
            reveal(Seq::filter);
            assert(ts.take(0).filter(pred) =~= Seq::<TaskView>::empty());
            assert(tviews(r@) =~= Seq::<TaskView>::empty());
        }
        while i < self.tasks.len()
            invariant
                self.wf(),
                ts == self@.tasks,
                i <= self.tasks.len(),
                pred == (|t: TaskView| claimable(ts, t)),
                tviews(r@) == ts.take(i as int).filter(pred),
            decreases self.tasks.len() - i,
        {
            let ghost pre = ts.take(i as int);
            proof {
                assert(ts.take(i as int + 1) =~= pre.push(ts[i as int]));
                pre.lemma_filter_push(ts[i as int], pred);
            }
            let t = &self.tasks[i];
            let ok = t.status == TaskStatus::Todo && t.claimed_by.is_none() && !str_eq(
                t.id.as_str(),
                "scope",
            ) && !self.blocked_at(i);
            assert(ok == pred(ts[i as int]));
            if ok {
                let ghost before = tviews(r@);
                r.push(self.tasks[i].clone());
                assert(tviews(r@) =~= before.push(ts[i as int]));
            }
            i = i + 1;
        }
        assert(ts.take(i as int) =~= ts);
        r
    }

    /// Sets the pending-done time of the task `task_id` (first phase of a
    /// two-phase completion); no task changes when there is no such task.
    pub fn set_task_pending_done(&mut self, task_id: &str, now: &str)
        requires
            old(self).wf(),
        ensures
            final(self).wf(),
            same_but_tasks(final(self)@, old(self)@),
            final(self)@.log == old(self)@.log,
            final(self)@.tasks == (if has_task(old(self)@.tasks, task_id@) {
                old(self)@.tasks.update(
                    task_index(old(self)@.tasks, task_id@),
                    TaskView {
                        pending_done_at: Some(now@),
                        ..old(self)@.tasks[task_index(old(self)@.tasks, task_id@)]
                    },
                )
            } else {
                old(self)@.tasks
            }),
    {
        if let Some(i) = self.find_task(task_id) {
            let ghost before = self@;
            self.tasks[i].pending_done_at = Some(now.to_owned());
            proof {
                let ts2 = before.tasks.update(
                    i as int,
                    TaskView { pending_done_at: Some(now@), ..before.tasks[i as int] },
                );
                assert(self@.tasks =~= ts2);
                lemma_same_shape(before.tasks, ts2);
            }
        }
    }

    /// Clears the pending-done time of the task `task_id` (second phase of a
    /// two-phase completion); no task changes when there is no such task.
    pub fn clear_task_pending_done(&mut self, task_id: &str)
        requires
            old(self).wf(),
        ensures
            final(self).wf(),
            same_but_tasks(final(self)@, old(self)@),
            final(self)@.log == old(self)@.log,
            final(self)@.tasks == (if has_task(old(self)@.tasks, task_id@) {
                old(self)@.tasks.update(
                    task_index(old(self)@.tasks, task_id@),
                    TaskView {
                        pending_done_at: None,
                        ..old(self)@.tasks[task_index(old(self)@.tasks, task_id@)]
                    },
                )
            } else {
                old(self)@.tasks
            }),
    {
        if let Some(i) = self.find_task(task_id) {
            let ghost before = self@;
            self.tasks[i].pending_done_at = None;
            proof {
                let ts2 = before.tasks.update(
                    i as int,
                    TaskView { pending_done_at: None, ..before.tasks[i as int] },
                );
                assert(self@.tasks =~= ts2);
                lemma_same_shape(before.tasks, ts2);
            }
        }
    }

    /// Records the tokens that the task `task_id` used; no task changes
    /// when there is no such task.
    pub fn set_task_tokens(&mut self, task_id: &str, tokens: i64)
        requires
            old(self).wf(),
        ensures
            final(self).wf(),
            same_but_tasks(final(self)@, old(self)@),
            final(self)@.log == old(self)@.log,
            final(self)@.tasks == (if has_task(old(self)@.tasks, task_id@) {
                old(self)@.tasks.update(
                    task_index(old(self)@.tasks, task_id@),
                    TaskView {
                        tokens_used: Some(tokens),
                        ..old(self)@.tasks[task_index(old(self)@.tasks, task_id@)]
                    },
                )
            } else {
                old(self)@.tasks
            }),
    {
        if let Some(i) = self.find_task(task_id) {
            let ghost before = self@;
            self.tasks[i].tokens_used = Some(tokens);
            proof {
                let ts2 = before.tasks.update(
                    i as int,
                    TaskView { tokens_used: Some(tokens), ..before.tasks[i as int] },
                );
                assert(self@.tasks =~= ts2);
                lemma_same_shape(before.tasks, ts2);
            }
        }
    }
}


/// Claiming a task and releasing it again by the same worker leaves the
/// task as releasing it directly would, and restores the tree exactly when
/// the task carried no claim before.
pub proof fn lemma_claim_then_unclaim(ts: Seq<TaskView>, id: Seq<char>, w: Seq<char>, now: Seq<char>)
    requires
        tasks_wf(ts),
        claim_check(ts, id, w) is None,
    ensures
        ({
            let i = task_index(ts, id);
            let ts1 = ts.update(i, claimed(ts[i], w, now));
            &&& held_check(ts1, id, w) is None
            &&& task_index(ts1, id) == i
            &&& ts1.update(i, unclaimed(ts1[i])) == ts.update(i, unclaimed(ts[i]))
            &&& (ts[i].claimed_by is None && ts[i].claimed_at is None) ==> ts1.update(
                i,
                unclaimed(ts1[i]),
            ) == ts
        }),
{
    let i = task_index(ts, id);
    let ts1 = ts.update(i, claimed(ts[i], w, now));
    lemma_same_shape(ts, ts1);
    assert(has_task(ts1, id));
    assert(ts1.update(i, unclaimed(ts1[i])) =~= ts.update(i, unclaimed(ts[i])));
    if ts[i].claimed_by is None && ts[i].claimed_at is None {
        assert(unclaimed(ts[i]) == ts[i]);
        assert(ts.update(i, unclaimed(ts[i])) =~= ts);
    }
}

/// The walk up from a completed task only ever completes tasks.
pub proof fn lemma_settle_only_completes(
    ts: Seq<TaskView>,
    pid: Seq<char>,
    now: Seq<char>,
    fuel: nat,
)
    ensures
        settle(ts, pid, now, fuel).0.len() == ts.len(),
        forall|i: int|
            0 <= i < ts.len() ==> #[trigger] settle(ts, pid, now, fuel).0[i] == ts[i] || settle(
                ts,
                pid,
                now,
                fuel,
            ).0[i] == completed(ts[i], now),
    decreases fuel,
{
    if fuel == 0 || !children_done(ts, pid) || !has_task(ts, pid) {
    } else {
        let j = task_index(ts, pid);
        if ts[j].status != TaskStatus::Done {
            let ts2 = ts.update(j, completed(ts[j], now));
            if let Some(g) = ts[j].parent_id {
                lemma_settle_only_completes(ts2, g, now, (fuel - 1) as nat);
                assert forall|i: int| 0 <= i < ts.len() implies #[trigger] settle(
                    ts,
                    pid,
                    now,
                    fuel,
                ).0[i] == ts[i] || settle(ts, pid, now, fuel).0[i] == completed(ts[i], now) by {
                    let r = settle(ts2, g, now, (fuel - 1) as nat).0;
                    if i == j {
                        assert(completed(ts2[i], now) == completed(ts[i], now));
                    }
                    assert(r[i] == ts2[i] || r[i] == completed(ts2[i], now));
                }
            }
        }
    }
}

/// When a worker completes the last unfinished child of a task, that parent
/// is done afterwards.
pub proof fn lemma_complete_last_child(ts: Seq<TaskView>, id: Seq<char>, w: Seq<char>, now: Seq<char>)
    requires
        tasks_wf(ts),
        held_check(ts, id, w) is None,
        ts[task_index(ts, id)].parent_id is Some,
        forall|k: int|
            0 <= k < ts.len() && k != task_index(ts, id) && child_of(
                #[trigger] ts[k],
                ts[task_index(ts, id)].parent_id->0,
            ) ==> ts[k].status == TaskStatus::Done,
    ensures
        ({
            let i = task_index(ts, id);
            let p = ts[i].parent_id->0;
            let ts2 = ts.update(i, completed(ts[i], now));
            settle(ts2, p, now, ts2.len()).0[task_index(ts, p)].status == TaskStatus::Done
        }),
{
    let i = task_index(ts, id);
    let p = ts[i].parent_id->0;
    let ts2 = ts.update(i, completed(ts[i], now));
    lemma_same_shape(ts, ts2);
    assert(ts[i].parent_id == Some(p));
    assert(has_task(ts, p));
    let j = task_index(ts, p);
    assert(has_task(ts2, p) && task_index(ts2, p) == j);
    assert(child_of(ts2[i], p));
    assert(children_done(ts2, p));
    lemma_settle_only_completes(ts2, p, now, ts2.len());
    if ts2[j].status != TaskStatus::Done {
        let ts3 = ts2.update(j, completed(ts2[j], now));
        if let Some(g) = ts2[j].parent_id {
            lemma_settle_only_completes(ts3, g, now, (ts2.len() - 1) as nat);
            let r = settle(ts3, g, now, (ts2.len() - 1) as nat).0;
            assert(r[j] == ts3[j] || r[j] == completed(ts3[j], now));
        }
    }
}

/// Deleting a task removes exactly it and its descendants: what remains
/// holds no task of the subtree and every task outside it.
pub proof fn lemma_delete_removes_subtree(ts: Seq<TaskView>, root: Seq<char>)
    requires
        tasks_wf(ts),
    ensures
        forall|a: int|
            0 <= a < after_delete(ts, root).len() ==> !doomed(
                ts,
                root,
                #[trigger] after_delete(ts, root)[a].id,
            ),
        forall|i: int|
            0 <= i < ts.len() && !in_subtree(ts, i, root) ==> #[trigger] after_delete(
                ts,
                root,
            ).contains(pruned(ts, root, ts[i])),
{
    let keep = |t: TaskView| !doomed(ts, root, t.id);
    let pr = |t: TaskView| pruned(ts, root, t);
    let f = ts.filter(keep);
    assert forall|a: int| 0 <= a < after_delete(ts, root).len() implies !doomed(
        ts,
        root,
        #[trigger] after_delete(ts, root)[a].id,
    ) by {
        ts.lemma_filter_pred(keep, a);
        assert(after_delete(ts, root)[a] == pr(f[a]));
    }
    assert forall|i: int| 0 <= i < ts.len() && !in_subtree(ts, i, root) implies #[trigger] after_delete(
        ts,
        root,
    ).contains(pruned(ts, root, ts[i])) by {
        lemma_task_index(ts, i);
        assert(keep(ts[i]));
        ts.lemma_filter_contains(keep, i);
        let a = choose|a: int| 0 <= a < f.len() && f[a] == ts[i];
        assert(after_delete(ts, root)[a] == pr(ts[i]));
    }
}

/// The token counts of the finished tasks that recorded one, the run's
/// `scope` task aside, in task order.
pub open spec fn finished_tokens(ts: Seq<TaskView>) -> Seq<i64>
    decreases ts.len(),
{
    if ts.len() == 0 {
        Seq::empty()
    } else {
        let t = ts.last();
        let rest = finished_tokens(ts.drop_last());
        if t.status == TaskStatus::Done && t.tokens_used is Some && t.id != "scope"@ {
            rest.push(t.tokens_used->0)
        } else {
            rest
        }
    }
}

/// The sum of `xs`.
pub open spec fn total(xs: Seq<i64>) -> int
    decreases xs.len(),
{
    if xs.len() == 0 {
        0
    } else {
        total(xs.drop_last()) + xs.last()
    }
}

/// `a` divided by `b`, rounded toward zero.
pub open spec fn div_toward_zero(a: int, b: int) -> int {
    if a >= 0 {
        a / b
    } else {
        -((-a) / b)
    }
}

/// The mean of `xs` rounded toward zero, or 0 when there is none.
pub open spec fn mean_toward_zero(xs: Seq<i64>) -> int {
    if xs.len() == 0 {
        0
    } else {
        div_toward_zero(total(xs), xs.len() as int)
    }
}

/// The sum of `k` values of `i64` stays within `k` times their range.
pub(crate) proof fn lemma_total_bound(xs: Seq<i64>)
    ensures
        -(xs.len() as int) * 0x8000_0000_0000_0000 <= total(xs) <= (xs.len() as int) * 0x7fff_ffff_ffff_ffff,
    decreases xs.len(),
{
    if xs.len() > 0 {
        lemma_total_bound(xs.drop_last());
    }
}

/// The mean lies between the smallest and the largest value.
pub(crate) proof fn lemma_mean_in_range(s: int, n: int)
    requires
        n > 0,
        -n * 0x8000_0000_0000_0000 <= s <= n * 0x7fff_ffff_ffff_ffff,
    ensures
        -0x8000_0000_0000_0000 <= div_toward_zero(s, n) <= 0x7fff_ffff_ffff_ffff,
{
    if s >= 0 {
        assert(s / n <= 0x7fff_ffff_ffff_ffff) by (nonlinear_arith)
            requires
                n > 0,
                0 <= s <= n * 0x7fff_ffff_ffff_ffff,
        ;
        assert(s / n >= 0) by (nonlinear_arith)
            requires
                n > 0,
                0 <= s,
        ;
    } else {
        assert((-s) / n <= 0x8000_0000_0000_0000) by (nonlinear_arith)
            requires
                n > 0,
                0 < -s <= n * 0x8000_0000_0000_0000,
        ;
        assert((-s) / n >= 0) by (nonlinear_arith)
            requires
                n > 0,
                0 < -s,
        ;
    }
}

impl SQLiteState {
    /// The mean token count of the finished tasks that recorded one (the
    /// run's `scope` task aside), rounded toward zero; 0 when there is none.
    pub fn get_avg_task_tokens(&self) -> (r: i64)
        ensures
            r == mean_toward_zero(finished_tokens(self@.tasks)),
    {
        let ghost ts = self@.tasks;
        let mut sum: i128 = 0;
        let mut count: usize = 0;
        let mut i: usize = 0;
        while i < self.tasks.len()
            invariant
                i <= self.tasks.len(),
                ts == self@.tasks,
                ts.len() == self.tasks.len(),
                count == finished_tokens(ts.take(i as int)).len(),
                sum == total(finished_tokens(ts.take(i as int))),
                count <= i,
            decreases self.tasks.len() - i,
        {
            let t = &self.tasks[i];
            assert(ts[i as int] == t@);
            assert(ts.take(i as int + 1).drop_last() =~= ts.take(i as int));
            assert(ts.take(i as int + 1).last() == ts[i as int]);
            proof {
                lemma_total_bound(finished_tokens(ts.take(i as int)));
                assert(count as int * 0x7fff_ffff_ffff_ffff <= i as int * 0x7fff_ffff_ffff_ffff) by (nonlinear_arith)
                    requires
                        count <= i,
                ;
                assert(count as int * 0x8000_0000_0000_0000 <= i as int * 0x8000_0000_0000_0000) by (nonlinear_arith)
                    requires
                        count <= i,
                ;
            }
            if t.status == TaskStatus::Done && !str_eq(t.id.as_str(), "scope") {
                if let Some(n) = t.tokens_used {
                    proof {
                        reveal_strlit("scope");
                        let xs = finished_tokens(ts.take(i as int));
                        assert(finished_tokens(ts.take(i as int + 1)) == xs.push(n));
                        assert(xs.push(n).drop_last() =~= xs);
                    }
                    sum = sum + n as i128;
                    count = count + 1;
                }
            }
            proof {
                reveal_strlit("scope");
            }
            i = i + 1;
        }
        assert(ts.take(ts.len() as int) =~= ts);
        if count == 0 {
            return 0;
        }
        proof {
            lemma_total_bound(finished_tokens(ts));
            lemma_mean_in_range(sum as int, count as int);
        }
        let q: i128 = if sum >= 0 { sum / (count as i128) } else { -((-sum) / (count as i128)) };
        q as i64
    }
}

} // verus!
