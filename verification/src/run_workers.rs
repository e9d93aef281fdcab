//! Workers and evals of a run, and the run status: adding and updating
//! workers, pausing and resuming all of them, and the eval records.

use vstd::prelude::*;
use vstd::string::StringSliceAdditionalSpecFns;
use vstd::utf8::{decode_utf8, encode_utf8, encode_utf8_decode_utf8};
use crate::text::{
    concat, concat3, debug_opt, debug_opt_str, signed_decimal, str_eq, to_signed_decimal,
};
use crate::run_settings::{stamped, upserted};
use crate::run_journal::RunJournal;
use crate::run_state::{
    clone_opt, opt_view, Eval, EvalStatus, EvalView, LogEntry, RunView, SQLiteState, StateError, Status,
    Worker, WorkerStatus, WorkerUpdate, WorkerView,
};

verus! {

/// The contents of a sequence of workers.
pub open spec fn wviews(v: Seq<Worker>) -> Seq<WorkerView> {
    v.map_values(|w: Worker| w@)
}

/// The contents of a sequence of evals.
pub open spec fn eviews(v: Seq<Eval>) -> Seq<EvalView> {
    v.map_values(|e: Eval| e@)
}

/// Whether some worker is named `name`.
pub open spec fn has_worker(ws: Seq<WorkerView>, name: Seq<char>) -> bool {
    exists|i: int| 0 <= i < ws.len() && ws[i].name == name
}

/// The position of the worker named `name`.
pub open spec fn worker_index(ws: Seq<WorkerView>, name: Seq<char>) -> int {
    choose|i: int| 0 <= i < ws.len() && ws[i].name == name
}

/// Workers have distinct names and increasing ids.
pub open spec fn workers_wf(ws: Seq<WorkerView>) -> bool {
    &&& forall|i: int, j: int|
        0 <= i < ws.len() && 0 <= j < ws.len() && i != j ==> ws[i].name != ws[j].name
    &&& forall|i: int, j: int| 0 <= i < j < ws.len() ==> ws[i].id < ws[j].id
}

/// Evals have increasing ids.
pub open spec fn evals_wf(es: Seq<EvalView>) -> bool {
    forall|i: int, j: int| 0 <= i < j < es.len() ==> es[i].id < es[j].id
}

/// The two run views agree on everything but the workers, the status, the
/// waiting reason and the log.
pub open spec fn same_but_workers(a: RunView, b: RunView) -> bool {
    a.tasks == b.tasks && a.evals == b.evals && a.settings == b.settings && a.journal == b.journal
}

/// The two run views agree on everything but the evals and the log.
pub open spec fn same_but_evals(a: RunView, b: RunView) -> bool {
    &&& a.status == b.status
    &&& a.waiting_reason == b.waiting_reason
    &&& a.tasks == b.tasks
    &&& a.workers == b.workers
    &&& a.settings == b.settings
    &&& a.journal == b.journal
}

/// With distinct names, the position of a name is the one that holds it.
pub proof fn lemma_worker_index(ws: Seq<WorkerView>, i: int)
    requires
        workers_wf(ws),
        0 <= i < ws.len(),
    ensures
        has_worker(ws, ws[i].name),
        worker_index(ws, ws[i].name) == i,
{
    assert(has_worker(ws, ws[i].name));
    let k = worker_index(ws, ws[i].name);
    assert(ws[k].name == ws[i].name);
}

/// Workers that are not idle-for-good: neither awaiting nor in error.
pub open spec fn active_worker(w: WorkerView) -> bool {
    !w.status.inactive()
}

/// The effect of a worker update on a worker, at time `now`.
pub open spec fn updated(w: WorkerView, u: WorkerUpdate, now: Seq<char>) -> WorkerView {
    WorkerView {
        pid: if u.pid is Some {
            u.pid
        } else {
            w.pid
        },
        session_id: if u.session_id is Some {
            opt_view(u.session_id)
        } else {
            w.session_id
        },
        session_started_at: if u.session_id is Some {
            Some(now)
        } else {
            w.session_started_at
        },
        status: match u.status {
            Some(s) => s,
            None => w.status,
        },
        waiting_thread: if u.waiting_thread is Some {
            opt_view(u.waiting_thread)
        } else {
            w.waiting_thread
        },
        needs_restart: match u.needs_restart {
            Some(b) => b,
            None => w.needs_restart,
        },
        last_heartbeat: if u.last_heartbeat is Some {
            opt_view(u.last_heartbeat)
        } else {
            w.last_heartbeat
        },
        ..w
    }
}

/// An update that writes nothing.
pub open spec fn empty_update(u: WorkerUpdate) -> bool {
    &&& u.pid is None
    &&& u.session_id is None
    &&& u.status is None
    &&& u.waiting_thread is None
    &&& u.needs_restart is None
    &&& u.last_heartbeat is None
}

/// The history record of a worker's status change.
pub open spec fn status_change_entry(name: Seq<char>, s: WorkerStatus) -> (
    Seq<char>,
    Option<Seq<char>>,
) {
    ("worker_status"@, Some(name + " → "@ + s.name()))
}

/// The workers after applying `u` to the worker named `name`, if any.
pub open spec fn apply_update(
    ws: Seq<WorkerView>,
    name: Seq<char>,
    u: WorkerUpdate,
    now: Seq<char>,
) -> Seq<WorkerView> {
    if has_worker(ws, name) {
        ws.update(worker_index(ws, name), updated(ws[worker_index(ws, name)], u, now))
    } else {
        ws
    }
}

/// The history records that applying `u` to the worker named `name` writes:
/// one when it sets a status other than the worker's (or the worker does
/// not exist).
pub open spec fn update_log(ws: Seq<WorkerView>, name: Seq<char>, u: WorkerUpdate) -> Seq<
    (Seq<char>, Option<Seq<char>>),
> {
    match u.status {
        Some(s) => if has_worker(ws, name) && ws[worker_index(ws, name)].status == s {
            Seq::empty()
        } else {
            seq![status_change_entry(name, s)]
        },
        None => Seq::empty(),
    }
}

/// The history record of a run status change.
pub open spec fn run_status_entry(s: Status) -> (Seq<char>, Option<Seq<char>>) {
    ("status_change"@, Some("run "@ + s.name()))
}

/// The eval `e` finished with status `s`, feedback `feedback`, at `now`.
pub open spec fn finished(e: EvalView, s: EvalStatus, feedback: Seq<char>, now: Seq<char>) -> EvalView {
    EvalView { status: s, feedback: Some(feedback), finished_at: Some(now), ..e }
}

/// Whether eval `e` is running.
pub open spec fn running(e: EvalView) -> bool {
    e.status == EvalStatus::Running
}

fn write_update(w: &mut Worker, updates: WorkerUpdate, now: &str)
    ensures
        final(w)@ == updated(old(w)@, updates, now@),
{
    let ghost u = updates;
    let WorkerUpdate { pid, session_id, status, waiting_thread, needs_restart, last_heartbeat } =
        updates;
    if let Some(p) = pid {
        w.pid = Some(p);
    }
    if let Some(sid) = session_id {
        w.session_id = Some(sid);
        w.session_started_at = Some(now.to_owned());
    }
    if let Some(s) = status {
        w.status = s;
    }
    if let Some(t) = waiting_thread {
        w.waiting_thread = Some(t);
    }
    if let Some(b) = needs_restart {
        w.needs_restart = b;
    }
    if let Some(h) = last_heartbeat {
        w.last_heartbeat = Some(h);
    }
}

impl SQLiteState {
    /// Workers have distinct names and increasing ids; evals have increasing
    /// ids.
    pub open spec fn records_wf(&self) -> bool {
        workers_wf(self@.workers) && evals_wf(self@.evals)
    }

    /// A fresh run store: idle, with no waiting reason, tasks, workers,
    /// evals, history, settings row or journal records.
    pub fn new() -> (r: SQLiteState)
        ensures
            r.wf(),
            r.records_wf(),
            r@.status == Status::Idle,
            r@.waiting_reason is None,
            r@.tasks.len() == 0,
            r@.workers.len() == 0,
            r@.evals.len() == 0,
            r@.log.len() == 0,
            r@.settings is None,
            r@.journal.messages.len() == 0,
            r@.journal.reads.len() == 0,
            r@.journal.history.len() == 0,
            r@.journal.amendments.len() == 0,
            r@.journal.events.len() == 0,
            r.journal_wf(),
    {
        let r = SQLiteState {
            status: Status::Idle,
            waiting_reason: None,
            tasks: Vec::new(),
            workers: Vec::new(),
            evals: Vec::new(),
            log: Vec::new(),
            settings: None,
            journal: RunJournal {
                messages: Vec::new(),
                reads: Vec::new(),
                history: Vec::new(),
                amendments: Vec::new(),
                events: Vec::new(),
            },
        };
        assert(r@.tasks =~= Seq::<crate::run_state::TaskView>::empty());
        r
    }

    /// Position of the worker named `name`, if any.
    pub fn find_worker(&self, name: &str) -> (r: Option<usize>)
        requires
            self.records_wf(),
        ensures
            match r {
                Some(i) => i < self.workers.len() && has_worker(self@.workers, name@)
                    && worker_index(self@.workers, name@) == i,
                None => !has_worker(self@.workers, name@),
            },
    {
        let mut i: usize = 0;
        while i < self.workers.len()
            invariant
                self.records_wf(),
                i <= self.workers.len(),
                forall|k: int| 0 <= k < i ==> self@.workers[k].name != name@,
            decreases self.workers.len() - i,
        {
            if str_eq(self.workers[i].name.as_str(), name) {
                proof {
                    lemma_worker_index(self@.workers, i as int);
                }
                return Some(i);
            }
            i = i + 1;
        }
        None
    }

    /// The worker named `name`, if any.
    pub fn get_worker(&self, name: &str) -> (r: Option<Worker>)
        requires
            self.records_wf(),
        ensures
            match r {
                Some(w) => has_worker(self@.workers, name@) && w@ == self@.workers[worker_index(
                    self@.workers,
                    name@,
                )],
                None => !has_worker(self@.workers, name@),
            },
    {
        match self.find_worker(name) {
            Some(i) => Some(self.workers[i].clone()),
            None => None,
        }
    }

    /// All workers, in order of id.
    pub fn get_workers(&self) -> (r: Vec<Worker>)
        ensures
            wviews(r@) == self@.workers,
    {
        let mut r: Vec<Worker> = Vec::new();
        let mut i: usize = 0;
        while i < self.workers.len()
            invariant
                i <= self.workers.len(),
                wviews(r@) == self@.workers.take(i as int),
            decreases self.workers.len() - i,
        {
            let ghost before = wviews(r@);
            r.push(self.workers[i].clone());
            assert(wviews(r@) =~= before.push(self@.workers[i as int]));
            assert(self@.workers.take(i as int + 1) =~= self@.workers.take(i as int).push(
                self@.workers[i as int],
            ));
            i = i + 1;
        }
        assert(self@.workers.take(i as int) =~= self@.workers);
        r
    }

    /// The workers at work: those of status `working`, in order of id.
    pub fn list_active_workers(&self) -> (r: Vec<Worker>)
        ensures
            wviews(r@) == self@.workers.filter(|w: WorkerView| w.status == WorkerStatus::Working),
    {
        let ghost pred = |w: WorkerView| w.status == WorkerStatus::Working;
        let ghost ws = self@.workers;
        let mut r: Vec<Worker> = Vec::new();
        let mut i: usize = 0;
        proof {
            reveal(Seq::filter);
            assert(ws.take(0).filter(pred) =~= Seq::<WorkerView>::empty());
            assert(wviews(r@) =~= Seq::<WorkerView>::empty());
        }
        while i < self.workers.len()
            invariant
                ws == self@.workers,
                i <= self.workers.len(),
                pred == (|w: WorkerView| w.status == WorkerStatus::Working),
                wviews(r@) == ws.take(i as int).filter(pred),
            decreases self.workers.len() - i,
        {
            let ghost pre = ws.take(i as int);
            proof {
                assert(ws.take(i as int + 1) =~= pre.push(ws[i as int]));
                pre.lemma_filter_push(ws[i as int], pred);
            }
            if self.workers[i].status == WorkerStatus::Working {
                let ghost before = wviews(r@);
                r.push(self.workers[i].clone());
                assert(wviews(r@) =~= before.push(ws[i as int]));
            }
            i = i + 1;
        }
        assert(ws.take(i as int) =~= ws);
        r
    }

    /// The workers that are neither awaiting nor in error, in order of id.
    pub fn get_active_workers(&self) -> (r: Vec<Worker>)
        ensures
            wviews(r@) == self@.workers.filter(|w: WorkerView| active_worker(w)),
    {
        let ghost pred = |w: WorkerView| active_worker(w);
        let ghost ws = self@.workers;
        let mut r: Vec<Worker> = Vec::new();
        let mut i: usize = 0;
        proof {
            reveal(Seq::filter);
            assert(ws.take(0).filter(pred) =~= Seq::<WorkerView>::empty());
            assert(wviews(r@) =~= Seq::<WorkerView>::empty());
        }
        while i < self.workers.len()
            invariant
                ws == self@.workers,
                i <= self.workers.len(),
                pred == (|w: WorkerView| active_worker(w)),
                wviews(r@) == ws.take(i as int).filter(pred),
            decreases self.workers.len() - i,
        {
            let ghost pre = ws.take(i as int);
            proof {
                assert(ws.take(i as int + 1) =~= pre.push(ws[i as int]));
                pre.lemma_filter_push(ws[i as int], pred);
            }
            if !self.workers[i].status.is_inactive() {
                let ghost before = wviews(r@);
                r.push(self.workers[i].clone());
                assert(wviews(r@) =~= before.push(ws[i as int]));
            }
            i = i + 1;
        }
        assert(ws.take(i as int) =~= ws);
        r
    }

    /// Whether every worker is awaiting or in error.
    pub fn all_workers_inactive(&self) -> (r: bool)
        ensures
            r == forall|i: int| 0 <= i < self@.workers.len() ==> (#[trigger] self@.workers[i]).status.inactive(),
    {
        let mut i: usize = 0;
        while i < self.workers.len()
            invariant
                i <= self.workers.len(),
                forall|k: int| 0 <= k < i ==> (#[trigger] self@.workers[k]).status.inactive(),
            decreases self.workers.len() - i,
        {
            if !self.workers[i].status.is_inactive() {
                assert(!self@.workers[i as int].status.inactive());
                return false;
            }
            i = i + 1;
        }
        true
    }

    /// How many workers wait for the user's reply.
    pub fn get_waiting_count(&self) -> (r: usize)
        ensures
            r == self@.workers.filter(|w: WorkerView| w.status == WorkerStatus::Waiting).len(),
    {
        let ghost pred = |w: WorkerView| w.status == WorkerStatus::Waiting;
        let ghost ws = self@.workers;
        let mut n: usize = 0;
        let mut i: usize = 0;
        proof {
            reveal(Seq::filter);
            assert(ws.take(0).filter(pred) =~= Seq::<WorkerView>::empty());
        }
        while i < self.workers.len()
            invariant
                ws == self@.workers,
                i <= self.workers.len(),
                pred == (|w: WorkerView| w.status == WorkerStatus::Waiting),
                n == ws.take(i as int).filter(pred).len(),
                n <= i,
            decreases self.workers.len() - i,
        {
            let ghost pre = ws.take(i as int);
            proof {
                assert(ws.take(i as int + 1) =~= pre.push(ws[i as int]));
                pre.lemma_filter_push(ws[i as int], pred);
            }
            if self.workers[i].status == WorkerStatus::Waiting {
                n = n + 1;
            }
            i = i + 1;
        }
        assert(ws.take(i as int) =~= ws);
        n
    }

    /// The run status.
    pub fn status(&self) -> (r: Status)
        ensures
            r == self@.status,
    {
        self.status
    }

    /// Sets the run status at `now`; a change writes the settings row
    /// (creating it if missing) and is recorded in the history.
    pub fn set_status(&mut self, status: Status, now: &str)
        ensures
            final(self)@.tasks == old(self)@.tasks,
            final(self)@.workers == old(self)@.workers,
            final(self)@.evals == old(self)@.evals,
            final(self)@.waiting_reason == old(self)@.waiting_reason,
            final(self)@.journal == old(self)@.journal,
            final(self)@.settings == if old(self)@.status == status {
                old(self)@.settings
            } else {
                Some(upserted(old(self)@.settings, now@))
            },
            final(self)@.status == status,
            final(self)@.log == if old(self)@.status == status {
                old(self)@.log
            } else {
                old(self)@.log.push(run_status_entry(status))
            },
    {
        if self.status == status {
            return ;
        }
        self.upsert_row(now);
        let ghost before = self@;
        self.status = status;
        let detail = concat("run ", status.as_str());
        self.log.push(LogEntry { action: "status_change".to_owned(), detail: Some(detail) });
        assert(self@.log =~= before.log.push(run_status_entry(status)));
    }

    /// The reason the run waits, if it does.
    pub fn get_waiting_reason(&self) -> (r: Option<String>)
        ensures
            opt_view(r) == self@.waiting_reason,
    {
        clone_opt(&self.waiting_reason)
    }

    /// Sets or clears the reason the run waits, at `now`. Without a settings
    /// row nothing is written.
    pub fn set_waiting_reason(&mut self, reason: Option<&str>, now: &str)
        ensures
            old(self)@.settings is None ==> final(self)@ == old(self)@,
            old(self)@.settings is Some ==> final(self)@ == (RunView {
                waiting_reason: match reason {
                    Some(s) => Some(s@),
                    None => None,
                },
                settings: stamped(old(self)@.settings, now@),
                ..old(self)@
            }),
    {
        if self.settings.is_none() {
            return;
        }
        let ghost before = self@;
        self.stamp_row(now);
        self.waiting_reason = match reason {
            Some(s) => Some(s.to_owned()),
            None => None,
        };
        assert(self@ =~= (RunView {
            waiting_reason: match reason {
                Some(s) => Some(s@),
                None => None,
            },
            settings: stamped(before.settings, now@),
            ..before
        }));
    }

    /// Applies `updates` to the worker named `name` at `now`. Setting a
    /// session also stamps its start; setting a status other than the
    /// worker's is recorded in the history. An update that writes nothing
    /// changes nothing.
    pub fn update_worker(&mut self, name: &str, updates: WorkerUpdate, now: &str)
        requires
            old(self).records_wf(),
        ensures
            final(self).records_wf(),
            final(self)@.status == old(self)@.status,
            final(self)@.waiting_reason == old(self)@.waiting_reason,
            same_but_workers(final(self)@, old(self)@),
            empty_update(updates) ==> final(self)@ == old(self)@,
            !empty_update(updates) ==> final(self)@.workers == apply_update(
                old(self)@.workers,
                name@,
                updates,
                now@,
            ) && final(self)@.log == old(self)@.log + update_log(old(self)@.workers, name@, updates),
    {
        if updates.pid.is_none() && updates.session_id.is_none() && updates.status.is_none()
            && updates.waiting_thread.is_none() && updates.needs_restart.is_none()
            && updates.last_heartbeat.is_none() {
            return ;
        }
        let ghost u = updates;
        let ghost before = self@;
        let pos = self.find_worker(name);
        if let Some(s) = updates.status {
            let same = match pos {
                Some(i) => self.workers[i].status == s,
                None => false,
            };
            if !same {
                let detail = concat3(name, " → ", s.as_str());
                self.log.push(LogEntry { action: "worker_status".to_owned(), detail: Some(detail) });
                assert(self@.log =~= before.log + update_log(before.workers, name@, u));
            } else {
                assert(self@.log =~= before.log + update_log(before.workers, name@, u));
            }
        } else {
            assert(self@.log =~= before.log + update_log(before.workers, name@, u));
        }
        if let Some(i) = pos {
            write_update(&mut self.workers[i], updates, now);
            assert(self@.workers =~= before.workers.update(
                i as int,
                updated(before.workers[i as int], u, now@),
            ));
        } else {
            assert(self@.workers =~= before.workers);
        }
    }
}


/// The detail recorded when all workers are paused: the reason, cut to its
/// first 100 bytes when it is longer.
pub open spec fn pause_detail(reason: Seq<char>) -> Seq<char> {
    if encode_utf8(reason).len() > 100 {
        decode_utf8(encode_utf8(reason).subrange(0, 100))
    } else {
        reason
    }
}

/// `w` moved from status `from` to status `to`, if it has status `from`.
pub open spec fn moved(w: WorkerView, from: WorkerStatus, to: WorkerStatus) -> WorkerView {
    if w.status == from {
        WorkerView { status: to, ..w }
    } else {
        w
    }
}

/// The history records of moving every worker with status `from` to `to`.
pub open spec fn moved_log(ws: Seq<WorkerView>, from: WorkerStatus, to: WorkerStatus) -> Seq<
    (Seq<char>, Option<Seq<char>>),
> {
    ws.filter(|w: WorkerView| w.status == from).map_values(
        |w: WorkerView| status_change_entry(w.name, to),
    )
}

/// The history records of setting the run status to `s` from `old`.
pub open spec fn status_log(old: Status, s: Status) -> Seq<(Seq<char>, Option<Seq<char>>)> {
    if old == s {
        Seq::empty()
    } else {
        seq![run_status_entry(s)]
    }
}

/// The eval record that `start_eval` creates.
pub open spec fn new_eval(
    id: i64,
    branch: Seq<char>,
    name: Option<Seq<char>>,
    log_file: Option<Seq<char>>,
    now: Seq<char>,
) -> EvalView {
    EvalView {
        id,
        branch,
        eval_name: name,
        status: EvalStatus::Running,
        feedback: None,
        log_file,
        pid: None,
        started_at: now,
        finished_at: None,
    }
}

/// The id the next record of a table gets: one past the last, or 1 for an
/// empty table.
pub open spec fn next_id(last: Option<i64>) -> int {
    match last {
        Some(n) => n + 1,
        None => 1,
    }
}

/// The last eval id, if any.
pub open spec fn last_eval_id(es: Seq<EvalView>) -> Option<i64> {
    if es.len() == 0 {
        None
    } else {
        Some(es.last().id)
    }
}

/// The last worker id, if any.
pub open spec fn last_worker_id(ws: Seq<WorkerView>) -> Option<i64> {
    if ws.len() == 0 {
        None
    } else {
        Some(ws.last().id)
    }
}

/// The worker record that `add_worker` creates.
pub open spec fn new_worker(
    id: i64,
    name: Seq<char>,
    work_dir: Seq<char>,
    location: Seq<char>,
    now: Seq<char>,
) -> WorkerView {
    WorkerView {
        id,
        name,
        pid: None,
        session_id: None,
        session_started_at: None,
        status: WorkerStatus::Idle,
        work_dir: Some(work_dir),
        waiting_thread: None,
        needs_restart: false,
        location,
        last_heartbeat: None,
        created_at: now,
        hitl_waiting: false,
    }
}

/// Whether eval `e` has id `id`.
pub open spec fn eval_has_id(e: EvalView, id: i64) -> bool {
    e.id == id
}

impl SQLiteState {
    /// Moves every worker with status `from` to `to`, recording each move.
    fn move_workers(&mut self, from: WorkerStatus, to: WorkerStatus)
        requires
            old(self).records_wf(),
            from != to,
        ensures
            final(self).records_wf(),
            final(self)@.status == old(self)@.status,
            final(self)@.waiting_reason == old(self)@.waiting_reason,
            same_but_workers(final(self)@, old(self)@),
            final(self)@.workers == old(self)@.workers.map_values(
                |w: WorkerView| moved(w, from, to),
            ),
            final(self)@.log == old(self)@.log + moved_log(old(self)@.workers, from, to),
    {
        let ghost ws = self@.workers;
        let ghost log0 = self@.log;
        let ghost pred = |w: WorkerView| w.status == from;
        let ghost ent = |w: WorkerView| status_change_entry(w.name, to);
        let ghost mv = |w: WorkerView| moved(w, from, to);
        let mut i: usize = 0;
        proof {
            reveal(Seq::filter);
            assert(ws.take(0).filter(pred).map_values(ent) =~= Seq::<(Seq<char>, Option<Seq<char>>)>::empty());
            assert(log0 + Seq::<(Seq<char>, Option<Seq<char>>)>::empty() =~= log0);
        }
        while i < self.workers.len()
            invariant
                old(self).records_wf(),
                ws == old(self)@.workers,
                log0 == old(self)@.log,
                pred == (|w: WorkerView| w.status == from),
                ent == (|w: WorkerView| status_change_entry(w.name, to)),
                mv == (|w: WorkerView| moved(w, from, to)),
                self.workers.len() == ws.len(),
                i <= ws.len(),
                self@.status == old(self)@.status,
                self@.waiting_reason == old(self)@.waiting_reason,
                same_but_workers(self@, old(self)@),
                forall|k: int| 0 <= k < i ==> #[trigger] self@.workers[k] == mv(ws[k]),
                forall|k: int| i <= k < ws.len() ==> #[trigger] self@.workers[k] == ws[k],
                self@.log == log0 + ws.take(i as int).filter(pred).map_values(ent),
            decreases ws.len() - i,
        {
            let ghost pre = ws.take(i as int);
            proof {
                assert(ws.take(i as int + 1) =~= pre.push(ws[i as int]));
                pre.lemma_filter_push(ws[i as int], pred);
            }
            let ghost prev = self@.workers;
            assert(self@.workers[i as int] == ws[i as int]);
            if self.workers[i].status == from {
                let ghost lg = self@.log;
                self.workers[i].status = to;
                assert(self@.workers =~= prev.update(i as int, mv(ws[i as int])));
                let detail = concat3(self.workers[i].name.as_str(), " → ", to.as_str());
                assert(detail@ == ws[i as int].name + " → "@ + to.name());
                self.log.push(LogEntry { action: "worker_status".to_owned(), detail: Some(detail) });
                proof {
                    assert(pre.filter(pred).push(ws[i as int]).map_values(ent) =~= pre.filter(
                        pred,
                    ).map_values(ent).push(ent(ws[i as int])));
                    assert(self@.log =~= lg.push(ent(ws[i as int])));
                }
            } else {
                assert(mv(ws[i as int]) == ws[i as int]);
            }
            i = i + 1;
        }
        proof {
            assert(ws.take(i as int) =~= ws);
            assert(self@.workers =~= ws.map_values(mv));
            let nw = self@.workers;
            assert forall|a: int, b: int|
                0 <= a < nw.len() && 0 <= b < nw.len() && a != b implies nw[a].name != nw[b].name by {
                assert(nw[a].name == ws[a].name && nw[b].name == ws[b].name);
            }
            assert forall|a: int, b: int| 0 <= a < b < nw.len() implies nw[a].id < nw[b].id by {
                assert(nw[a].id == ws[a].id && nw[b].id == ws[b].id);
            }
        }
    }

    /// Pauses the run for `reason`: the run becomes paused, the reason is
    /// kept, every working worker is paused, and the pause is recorded.
    pub fn pause_all_workers(&mut self, reason: &str, now: &str)
        requires
            old(self).records_wf(),
            encode_utf8(reason@).len() > 100 ==> vstd::utf8::is_char_boundary(
                reason.spec_bytes(),
                100,
            ),
        ensures
            final(self).records_wf(),
            final(self)@.tasks == old(self)@.tasks,
            final(self)@.evals == old(self)@.evals,
            final(self)@.journal == old(self)@.journal,
            final(self)@.status == Status::Paused,
            ({
                let row = if old(self)@.status == Status::Paused {
                    old(self)@.settings
                } else {
                    Some(upserted(old(self)@.settings, now@))
                };
                &&& final(self)@.settings == stamped(row, now@)
                &&& final(self)@.waiting_reason == if row is Some {
                    Some(reason@)
                } else {
                    old(self)@.waiting_reason
                }
            }),
            final(self)@.workers == old(self)@.workers.map_values(
                |w: WorkerView| moved(w, WorkerStatus::Working, WorkerStatus::Paused),
            ),
            final(self)@.log == old(self)@.log + status_log(old(self)@.status, Status::Paused)
                + moved_log(old(self)@.workers, WorkerStatus::Working, WorkerStatus::Paused)
                + seq![("pause_all"@, Some(pause_detail(reason@)))],
    {
        let ghost start = self@;
        self.set_status(Status::Paused, now);
        proof {
            assert(self@.log =~= start.log + status_log(start.status, Status::Paused));
        }
        self.set_waiting_reason(Some(reason), now);
        let ghost mid = self@;
        self.move_workers(WorkerStatus::Working, WorkerStatus::Paused);
        let detail = if reason.as_bytes().len() > 100 {
            let (head, _) = reason.split_at(100);
            let d = head.to_owned();
            proof {
                encode_utf8_decode_utf8(d@);
                assert(d@ == pause_detail(reason@));
            }
            d
        } else {
            let d = reason.to_owned();
            assert(d@ == pause_detail(reason@));
            d
        };
        assert(detail@ == pause_detail(reason@));
        let ghost lg = self@.log;
        self.log.push(LogEntry { action: "pause_all".to_owned(), detail: Some(detail) });
        assert(self@.log =~= lg.push(("pause_all"@, Some(pause_detail(reason@)))));
    }

    /// Resumes the run: it becomes working, the waiting reason is cleared,
    /// every paused worker works again, and the resume is recorded.
    pub fn resume_all_workers(&mut self, now: &str)
        requires
            old(self).records_wf(),
        ensures
            final(self).records_wf(),
            final(self)@.tasks == old(self)@.tasks,
            final(self)@.evals == old(self)@.evals,
            final(self)@.journal == old(self)@.journal,
            final(self)@.status == Status::Working,
            ({
                let row = if old(self)@.status == Status::Working {
                    old(self)@.settings
                } else {
                    Some(upserted(old(self)@.settings, now@))
                };
                &&& final(self)@.settings == stamped(row, now@)
                &&& final(self)@.waiting_reason == if row is Some {
                    None
                } else {
                    old(self)@.waiting_reason
                }
            }),
            final(self)@.workers == old(self)@.workers.map_values(
                |w: WorkerView| moved(w, WorkerStatus::Paused, WorkerStatus::Working),
            ),
            final(self)@.log == old(self)@.log + status_log(old(self)@.status, Status::Working)
                + moved_log(old(self)@.workers, WorkerStatus::Paused, WorkerStatus::Working)
                + seq![("resume_all"@, None)],
    {
        let ghost start = self@;
        self.set_status(Status::Working, now);
        proof {
            assert(self@.log =~= start.log + status_log(start.status, Status::Working));
        }
        self.set_waiting_reason(None, now);
        self.move_workers(WorkerStatus::Paused, WorkerStatus::Working);
        let ghost lg = self@.log;
        self.log.push(LogEntry { action: "resume_all".to_owned(), detail: None });
        assert(self@.log =~= lg.push(("resume_all"@, None)));
    }

    /// Adds a worker named `name`, working in `work_dir` at `location`, idle.
    /// Returns the new worker, or nothing when the name is taken.
    pub fn add_worker(&mut self, name: &str, work_dir: &str, location: &str, now: &str) -> (r:
        Option<Worker>)
        requires
            old(self).records_wf(),
            next_id(last_worker_id(old(self)@.workers)) <= i64::MAX,
        ensures
            final(self).records_wf(),
            final(self)@.status == old(self)@.status,
            final(self)@.waiting_reason == old(self)@.waiting_reason,
            same_but_workers(final(self)@, old(self)@),
            has_worker(old(self)@.workers, name@) ==> r is None && final(self)@ == old(self)@,
            !has_worker(old(self)@.workers, name@) ==> ({
                let w = new_worker(
                    next_id(last_worker_id(old(self)@.workers)) as i64,
                    name@,
                    work_dir@,
                    location@,
                    now@,
                );
                &&& r matches Some(x) && x@ == w
                &&& final(self)@.workers == old(self)@.workers.push(w)
                &&& final(self)@.log == old(self)@.log.push(("worker_add"@, Some(name@)))
            }),
    {
        if self.find_worker(name).is_some() {
            return None;
        }
        let n = self.workers.len();
        let id: i64 = if n == 0 {
            1
        } else {
            self.workers[n - 1].id + 1
        };
        let ghost before = self@;
        let w = Worker {
            id,
            name: name.to_owned(),
            pid: None,
            session_id: None,
            session_started_at: None,
            status: WorkerStatus::Idle,
            work_dir: Some(work_dir.to_owned()),
            waiting_thread: None,
            needs_restart: false,
            location: location.to_owned(),
            last_heartbeat: None,
            created_at: now.to_owned(),
            hitl_waiting: false,
        };
        let out = w.clone();
        self.workers.push(w);
        self.log.push(LogEntry { action: "worker_add".to_owned(), detail: Some(name.to_owned()) });
        proof {
            let nw = self@.workers;
            assert(nw =~= before.workers.push(out@));
            assert(self@.log =~= before.log.push(("worker_add"@, Some(name@))));
            assert forall|a: int, b: int|
                0 <= a < nw.len() && 0 <= b < nw.len() && a != b implies nw[a].name != nw[b].name by {
                if a < n && b < n {
                    assert(nw[a] == before.workers[a] && nw[b] == before.workers[b]);
                } else if a < n {
                    assert(nw[a] == before.workers[a]);
                } else if b < n {
                    assert(nw[b] == before.workers[b]);
                }
            }
            assert forall|a: int, b: int| 0 <= a < b < nw.len() implies nw[a].id < nw[b].id by {
                if b < n {
                    assert(nw[a] == before.workers[a] && nw[b] == before.workers[b]);
                } else if a < n - 1 {
                    assert(nw[a] == before.workers[a]);
                    assert(before.workers[a].id < before.workers[n - 1].id);
                }
            }
        }
        Some(out)
    }

    /// Starts an eval of `branch` at `now`, running; returns its id.
    pub fn start_eval(
        &mut self,
        branch: &str,
        eval_name: Option<&str>,
        log_file: Option<&str>,
        now: &str,
    ) -> (r: i64)
        requires
            old(self).records_wf(),
            next_id(last_eval_id(old(self)@.evals)) <= i64::MAX,
        ensures
            final(self).records_wf(),
            same_but_evals(final(self)@, old(self)@),
            r == next_id(last_eval_id(old(self)@.evals)),
            final(self)@.evals == old(self)@.evals.push(
                new_eval(
                    r,
                    branch@,
                    match eval_name {
                        Some(s) => Some(s@),
                        None => None,
                    },
                    match log_file {
                        Some(s) => Some(s@),
                        None => None,
                    },
                    now@,
                ),
            ),
            final(self)@.log == old(self)@.log.push(
                (
                    "eval_start"@,
                    Some(
                        "branch="@ + branch@ + " name="@ + debug_opt(
                            match eval_name {
                                Some(s) => Some(s@),
                                None => None,
                            },
                        ),
                    ),
                ),
            ),
    {
        let n = self.evals.len();
        let id: i64 = if n == 0 {
            1
        } else {
            self.evals[n - 1].id + 1
        };
        let ghost before = self@;
        let e = Eval {
            id,
            branch: branch.to_owned(),
            eval_name: match eval_name {
                Some(s) => Some(s.to_owned()),
                None => None,
            },
            status: EvalStatus::Running,
            feedback: None,
            log_file: match log_file {
                Some(s) => Some(s.to_owned()),
                None => None,
            },
            pid: None,
            started_at: now.to_owned(),
            finished_at: None,
        };
        self.evals.push(e);
        let mut detail = concat3("branch=", branch, " name=");
        let d = debug_opt_str(eval_name);
        detail.append(d.as_str());
        self.log.push(LogEntry { action: "eval_start".to_owned(), detail: Some(detail) });
        proof {
            let ne = self@.evals;
            assert(ne =~= before.evals.push(ne.last()));
            assert(self@.log =~= before.log.push(self@.log.last()));
            assert forall|a: int, b: int| 0 <= a < b < ne.len() implies ne[a].id < ne[b].id by {
                if b < n {
                    assert(ne[a] == before.evals[a] && ne[b] == before.evals[b]);
                } else if a < n - 1 {
                    assert(ne[a] == before.evals[a]);
                    assert(before.evals[a].id < before.evals[n - 1].id);
                }
            }
        }
        id
    }

    /// Finishes the eval `eval_id` at `now`: passed when `success`, failed
    /// otherwise, with `feedback`. The completion is recorded even when no
    /// eval has that id.
    pub fn complete_eval(&mut self, eval_id: i64, success: bool, feedback: &str, now: &str)
        requires
            old(self).records_wf(),
        ensures
            final(self).records_wf(),
            same_but_evals(final(self)@, old(self)@),
            ({
                let s = if success {
                    EvalStatus::Passed
                } else {
                    EvalStatus::Failed
                };
                &&& final(self)@.evals == old(self)@.evals.map_values(
                    |e: EvalView| if e.id == eval_id {
                        finished(e, s, feedback@, now@)
                    } else {
                        e
                    },
                )
                &&& final(self)@.log == old(self)@.log.push(
                    (
                        "eval_complete"@,
                        Some("id="@ + signed_decimal(eval_id as int) + " status="@ + s.name()),
                    ),
                )
            }),
    {
        let status = if success {
            EvalStatus::Passed
        } else {
            EvalStatus::Failed
        };
        let ghost es = self@.evals;
        let ghost f = |e: EvalView| if e.id == eval_id {
            finished(e, status, feedback@, now@)
        } else {
            e
        };
        let mut i: usize = 0;
        while i < self.evals.len()
            invariant
                es == old(self)@.evals,
                f == (|e: EvalView| if e.id == eval_id {
                    finished(e, status, feedback@, now@)
                } else {
                    e
                }),
                self.evals.len() == es.len(),
                i <= es.len(),
                same_but_evals(self@, old(self)@),
                self@.log == old(self)@.log,
                forall|k: int| 0 <= k < i ==> #[trigger] self@.evals[k] == f(es[k]),
                forall|k: int| i <= k < es.len() ==> #[trigger] self@.evals[k] == es[k],
            decreases es.len() - i,
        {
            let ghost prev = self@.evals;
            assert(self@.evals[i as int] == es[i as int]);
            if self.evals[i].id == eval_id {
                self.evals[i].status = status;
                self.evals[i].feedback = Some(feedback.to_owned());
                self.evals[i].finished_at = Some(now.to_owned());
                assert(self@.evals =~= prev.update(i as int, f(es[i as int])));
            } else {
                assert(self@.evals =~= prev);
            }
            i = i + 1;
        }
        assert(self@.evals =~= es.map_values(f)) by {
            assert forall|k: int| 0 <= k < es.len() implies #[trigger] self@.evals[k] == es.map_values(f)[k] by {
                assert(self@.evals[k] == f(es[k]));
            }
        }
        let ghost lg = self@.log;
        let mut detail = concat("id=", to_signed_decimal(eval_id).as_str());
        detail.append(" status=");
        detail.append(status.as_str());
        self.log.push(LogEntry { action: "eval_complete".to_owned(), detail: Some(detail) });
        proof {
            assert(self@.log =~= lg.push(self@.log.last()));
            let ne = self@.evals;
            assert forall|a: int, b: int| 0 <= a < b < ne.len() implies ne[a].id < ne[b].id by {
                assert(ne[a].id == es[a].id && ne[b].id == es[b].id);
            }
        }
    }
}


/// The position of the last eval satisfying `p`, if any.
pub open spec fn last_where(es: Seq<EvalView>, p: spec_fn(EvalView) -> bool) -> int {
    choose|i: int| 0 <= i < es.len() && p(es[i]) && forall|k: int| i < k < es.len() ==> !p(#[trigger] es[k])
}

/// Whether some eval satisfies `p`.
pub open spec fn some_where(es: Seq<EvalView>, p: spec_fn(EvalView) -> bool) -> bool {
    exists|i: int| 0 <= i < es.len() && p(#[trigger] es[i])
}

/// The last eval satisfying `p`, if any.
pub open spec fn last_eval_where(es: Seq<EvalView>, p: spec_fn(EvalView) -> bool) -> Option<EvalView> {
    if some_where(es, p) {
        Some(es[last_where(es, p)])
    } else {
        None
    }
}

/// Whether eval `e` has the name, the id and (when asked) the running
/// status that a query asks for.
pub open spec fn eval_matches(e: EvalView, name: Option<&str>, id: Option<i64>, running_only: bool) -> bool {
    &&& match name {
        Some(n) => e.eval_name == Some(n@),
        None => true,
    }
    &&& match id {
        Some(x) => e.id == x,
        None => true,
    }
    &&& running_only ==> running(e)
}

/// The contents of an optional eval.
pub open spec fn opt_eval(o: Option<Eval>) -> Option<EvalView> {
    match o {
        Some(e) => Some(e@),
        None => None,
    }
}

/// The history record of cancelling an eval.
pub open spec fn cancel_entry(e: EvalView) -> (Seq<char>, Option<Seq<char>>) {
    ("eval_cancel"@, Some("id="@ + signed_decimal(e.id as int) + " name="@ + debug_opt(e.eval_name)))
}

impl SQLiteState {
    /// The last eval satisfying `p`, searching from the newest.
    fn last_eval_matching(&self, Ghost(p): Ghost<spec_fn(EvalView) -> bool>, name: Option<&str>, id: Option<i64>, running_only: bool) -> (r: Option<Eval>)
        requires
            forall|e: EvalView| #[trigger] p(e) == eval_matches(e, name, id, running_only),
        ensures
            opt_eval(r) == last_eval_where(self@.evals, p),
    {
        let ghost es = self@.evals;
        let mut i: usize = self.evals.len();
        while i > 0
            invariant
                es == self@.evals,
                i <= es.len(),
                forall|e: EvalView| #[trigger] p(e) == eval_matches(e, name, id, running_only),
                forall|k: int| i <= k < es.len() ==> !p(#[trigger] es[k]),
            decreases i,
        {
            let e = &self.evals[i - 1];
            assert(es[i - 1] == e@);
            let mut ok = true;
            if let Some(n) = name {
                ok = match &e.eval_name {
                    Some(x) => str_eq(x.as_str(), n),
                    None => false,
                };
            }
            if let Some(x) = id {
                ok = ok && e.id == x;
            }
            if running_only {
                ok = ok && e.status == EvalStatus::Running;
            }
            assert(ok == p(es[i - 1]));
            if ok {
                proof {
                    let j = (i - 1) as int;
                    assert(some_where(es, p));
                    let c = last_where(es, p);
                    if c < j {
                        assert(!p(es[j]) || c >= j);
                    }
                    if c > j {
                        assert(!p(es[c]));
                    }
                }
                return Some(e.clone());
            }
            i = i - 1;
        }
        proof {
            if some_where(es, p) {
                let k = choose|k: int| 0 <= k < es.len() && p(#[trigger] es[k]);
                assert(!p(es[k]));
            }
        }
        None
    }

    /// The eval with id `eval_id`, if any.
    pub fn get_eval(&self, eval_id: i64) -> (r: Option<Eval>)
        ensures
            opt_eval(r) == last_eval_where(self@.evals, |e: EvalView| eval_has_id(e, eval_id)),
    {
        self.last_eval_matching(Ghost(|e: EvalView| eval_has_id(e, eval_id)), None, Some(eval_id), false)
    }

    /// The newest eval named `eval_name`, if any.
    pub fn get_eval_by_name(&self, eval_name: &str) -> (r: Option<Eval>)
        ensures
            opt_eval(r) == last_eval_where(
                self@.evals,
                |e: EvalView| e.eval_name == Some(eval_name@),
            ),
    {
        self.last_eval_matching(
            Ghost(|e: EvalView| e.eval_name == Some(eval_name@)),
            Some(eval_name),
            None,
            false,
        )
    }

    /// The newest running eval, if any.
    pub fn get_running_eval(&self) -> (r: Option<Eval>)
        ensures
            opt_eval(r) == last_eval_where(self@.evals, |e: EvalView| running(e)),
    {
        self.last_eval_matching(Ghost(|e: EvalView| running(e)), None, None, true)
    }

    /// The oldest `limit` evals, in order of id; all of them when `limit`
    /// is negative.
    pub fn get_evals(&self, limit: i64) -> (r: Vec<Eval>)
        ensures
            r@.map_values(|e: Eval| e@) == if limit < 0 || limit >= self@.evals.len() {
                self@.evals
            } else {
                self@.evals.take(limit as int)
            },
    {
        let n: usize = if limit < 0 || limit as u64 >= self.evals.len() as u64 {
            self.evals.len()
        } else {
            limit as usize
        };
        let mut r: Vec<Eval> = Vec::new();
        let mut i: usize = 0;
        while i < n
            invariant
                n <= self.evals.len(),
                i <= n,
                r@.map_values(|e: Eval| e@) == self@.evals.take(i as int),
            decreases n - i,
        {
            let ghost before = r@.map_values(|e: Eval| e@);
            r.push(self.evals[i].clone());
            assert(r@.map_values(|e: Eval| e@) =~= before.push(self@.evals[i as int]));
            assert(self@.evals.take(i as int + 1) =~= self@.evals.take(i as int).push(
                self@.evals[i as int],
            ));
            i = i + 1;
        }
        assert(self@.evals.take(n as int) =~= self@.evals || n < self@.evals.len());
        r
    }

    /// Fails every running eval with `reason` at `now`, recording each;
    /// returns how many there were.
    pub fn cancel_running_evals(&mut self, reason: &str, now: &str) -> (r: i64)
        requires
            old(self).records_wf(),
        ensures
            final(self).records_wf(),
            same_but_evals(final(self)@, old(self)@),
            r == old(self)@.evals.filter(|e: EvalView| running(e)).len() as i64,
            final(self)@.evals == old(self)@.evals.map_values(
                |e: EvalView| if running(e) {
                    finished(e, EvalStatus::Failed, reason@, now@)
                } else {
                    e
                },
            ),
            final(self)@.log == old(self)@.log + old(self)@.evals.filter(|e: EvalView| running(e)).map_values(
                |e: EvalView| cancel_entry(e),
            ),
    {
        let ghost es = self@.evals;
        let ghost log0 = self@.log;
        let ghost pred = |e: EvalView| running(e);
        let ghost ent = |e: EvalView| cancel_entry(e);
        let ghost f = |e: EvalView| if running(e) {
            finished(e, EvalStatus::Failed, reason@, now@)
        } else {
            e
        };
        let mut count: usize = 0;
        let mut i: usize = 0;
        proof {
            reveal(Seq::filter);
            assert(es.take(0).filter(pred) =~= Seq::<EvalView>::empty());
            assert(log0 + es.take(0).filter(pred).map_values(ent) =~= log0);
        }
        while i < self.evals.len()
            invariant
                es == old(self)@.evals,
                log0 == old(self)@.log,
                pred == (|e: EvalView| running(e)),
                ent == (|e: EvalView| cancel_entry(e)),
                f == (|e: EvalView| if running(e) {
                    finished(e, EvalStatus::Failed, reason@, now@)
                } else {
                    e
                }),
                self.evals.len() == es.len(),
                i <= es.len(),
                count == es.take(i as int).filter(pred).len(),
                count <= i,
                same_but_evals(self@, old(self)@),
                forall|k: int| 0 <= k < i ==> #[trigger] self@.evals[k] == f(es[k]),
                forall|k: int| i <= k < es.len() ==> #[trigger] self@.evals[k] == es[k],
                self@.log == log0 + es.take(i as int).filter(pred).map_values(ent),
            decreases es.len() - i,
        {
            let ghost pre = es.take(i as int);
            proof {
                assert(es.take(i as int + 1) =~= pre.push(es[i as int]));
                pre.lemma_filter_push(es[i as int], pred);
            }
            let ghost prev = self@.evals;
            assert(self@.evals[i as int] == es[i as int]);
            if self.evals[i].status == EvalStatus::Running {
                let ghost lg = self@.log;
                let mut detail = concat("id=", to_signed_decimal(self.evals[i].id).as_str());
                detail.append(" name=");
                let name = match &self.evals[i].eval_name {
                    Some(x) => Some(x.as_str()),
                    None => None,
                };
                let d = debug_opt_str(name);
                detail.append(d.as_str());
                assert(detail@ == ent(es[i as int]).1->0);
                self.evals[i].status = EvalStatus::Failed;
                self.evals[i].feedback = Some(reason.to_owned());
                self.evals[i].finished_at = Some(now.to_owned());
                assert(self@.evals =~= prev.update(i as int, f(es[i as int])));
                self.log.push(LogEntry { action: "eval_cancel".to_owned(), detail: Some(detail) });
                count = count + 1;
                proof {
                    assert(pre.filter(pred).push(es[i as int]).map_values(ent) =~= pre.filter(
                        pred,
                    ).map_values(ent).push(ent(es[i as int])));
                    assert(self@.log =~= lg.push(ent(es[i as int])));
                }
            } else {
                assert(self@.evals =~= prev);
            }
            i = i + 1;
        }
        assert(es.take(i as int) =~= es);
        assert(self@.evals =~= es.map_values(f)) by {
            assert forall|k: int| 0 <= k < es.len() implies #[trigger] self@.evals[k] == es.map_values(f)[k] by {
                assert(self@.evals[k] == f(es[k]));
            }
        }
        proof {
            let ne = self@.evals;
            assert forall|a: int, b: int| 0 <= a < b < ne.len() implies ne[a].id < ne[b].id by {
                assert(ne[a].id == es[a].id && ne[b].id == es[b].id);
            }
        }
        count as i64
    }
}

/// Whether an eval failed because the run was paused.
pub open spec fn paused_eval(e: EvalView) -> bool {
    e.status == EvalStatus::Failed && e.feedback == Some("Run paused"@)
}

/// The eval `e` once the run resumed: a paused eval is marked as resumed.
pub open spec fn resumed(e: EvalView) -> EvalView {
    if paused_eval(e) {
        EvalView { feedback: Some("Paused and resumed"@), ..e }
    } else {
        e
    }
}

/// The eval `e` with process `pid` recorded when its id is `eval_id`.
pub open spec fn with_pid(e: EvalView, eval_id: i64, pid: u32) -> EvalView {
    if e.id == eval_id {
        EvalView { pid: Some(pid as i64), ..e }
    } else {
        e
    }
}

/// The worker `w` once the user's answers are in: no longer waiting for
/// the user, nor on a thread.
pub open spec fn answered(w: WorkerView) -> WorkerView {
    if w.hitl_waiting {
        WorkerView { hitl_waiting: false, waiting_thread: None, ..w }
    } else {
        w
    }
}

/// Whether a worker waits for the user.
pub open spec fn waits_for_user() -> spec_fn(WorkerView) -> bool {
    |w: WorkerView| w.hitl_waiting
}

/// Whether a worker has some other name than `name`.
pub open spec fn named_otherwise(name: Seq<char>) -> spec_fn(WorkerView) -> bool {
    |w: WorkerView| w.name != name
}

/// The contents of a sequence of workers.
pub open spec fn worker_seq_views(ws: Seq<Worker>) -> Seq<WorkerView> {
    ws.map_values(|w: Worker| w@)
}

impl SQLiteState {
    /// Records the process `pid` of the eval `eval_id`.
    pub fn set_eval_pid(&mut self, eval_id: i64, pid: u32)
        requires
            old(self).records_wf(),
        ensures
            final(self).records_wf(),
            final(self)@ == (RunView { evals: old(self)@.evals.map_values(|e: EvalView| with_pid(e, eval_id, pid)), ..old(self)@ }),
    {
        let ghost before = self@;
        let mut i: usize = 0;
        while i < self.evals.len()
            invariant
                i <= self.evals.len(),
                self.evals.len() == before.evals.len(),
                self@ == (RunView { evals: self@.evals, ..before }),
                forall|k: int| 0 <= k < i ==> self@.evals[k] == with_pid(before.evals[k], eval_id, pid),
                forall|k: int| i <= k < self.evals.len() ==> self@.evals[k] == before.evals[k],
            decreases self.evals.len() - i,
        {
            assert(self@.evals[i as int] == self.evals@[i as int]@);
            let ghost prev = self@.evals;
            if self.evals[i].id == eval_id {
                let mut e = self.evals.remove(i);
                e.pid = Some(pid as i64);
                self.evals.insert(i, e);
                assert(self@.evals =~= prev.update(i as int, with_pid(prev[i as int], eval_id, pid)));
            }
            i = i + 1;
        }
        proof {
            let es = self@.evals;
            assert(es =~= before.evals.map_values(|e: EvalView| with_pid(e, eval_id, pid)));
            assert forall|a: int, b: int| 0 <= a < b < es.len() implies es[a].id < es[b].id by {
                assert(es[a].id == before.evals[a].id && es[b].id == before.evals[b].id);
            }
        }
    }

    /// Whether some eval failed because the run was paused.
    pub fn has_paused_eval(&self) -> (r: bool)
        ensures
            r == exists|k: int| 0 <= k < self@.evals.len() && paused_eval(#[trigger] self@.evals[k]),
    {
        let mut i: usize = 0;
        while i < self.evals.len()
            invariant
                i <= self.evals.len(),
                forall|k: int| 0 <= k < i ==> !paused_eval(#[trigger] self@.evals[k]),
            decreases self.evals.len() - i,
        {
            let e = &self.evals[i];
            assert(self@.evals[i as int] == e@);
            let paused = e.status == EvalStatus::Failed && match &e.feedback {
                Some(f) => str_eq(f.as_str(), "Run paused"),
                None => false,
            };
            if paused {
                return true;
            }
            i = i + 1;
        }
        false
    }

    /// Marks the evals that failed because the run was paused as resumed.
    pub fn clear_paused_evals(&mut self)
        requires
            old(self).records_wf(),
        ensures
            final(self).records_wf(),
            final(self)@ == (RunView { evals: old(self)@.evals.map_values(|e: EvalView| resumed(e)), ..old(self)@ }),
    {
        let ghost before = self@;
        let mut i: usize = 0;
        while i < self.evals.len()
            invariant
                i <= self.evals.len(),
                self.evals.len() == before.evals.len(),
                self@ == (RunView { evals: self@.evals, ..before }),
                forall|k: int| 0 <= k < i ==> self@.evals[k] == resumed(before.evals[k]),
                forall|k: int| i <= k < self.evals.len() ==> self@.evals[k] == before.evals[k],
            decreases self.evals.len() - i,
        {
            assert(self@.evals[i as int] == self.evals@[i as int]@);
            let paused = self.evals[i].status == EvalStatus::Failed && match &self.evals[i].feedback {
                Some(f) => str_eq(f.as_str(), "Run paused"),
                None => false,
            };
            if paused {
                let mut e = self.evals.remove(i);
                e.feedback = Some("Paused and resumed".to_owned());
                self.evals.insert(i, e);
            }
            i = i + 1;
        }
        proof {
            let es = self@.evals;
            assert(es =~= before.evals.map_values(|e: EvalView| resumed(e)));
            assert forall|a: int, b: int| 0 <= a < b < es.len() implies es[a].id < es[b].id by {
                assert(es[a].id == before.evals[a].id && es[b].id == before.evals[b].id);
            }
        }
    }

    /// The workers waiting for the user, in order of id.
    pub fn get_hitl_waiting_workers(&self) -> (r: Vec<Worker>)
        ensures
            worker_seq_views(r@) == self@.workers.filter(waits_for_user()),
    {
        let ghost all = self@.workers;
        let ghost pred = waits_for_user();
        let mut out: Vec<Worker> = Vec::new();
        let mut i: usize = 0;
        proof {
            reveal(Seq::filter);
            assert(all.take(0) =~= Seq::<WorkerView>::empty());
            assert(all.take(0).filter(pred) =~= Seq::<WorkerView>::empty());
            assert(worker_seq_views(out@) =~= Seq::<WorkerView>::empty());
        }
        while i < self.workers.len()
            invariant
                i <= self.workers.len(),
                all == self@.workers,
                all.len() == self.workers.len(),
                pred == waits_for_user(),
                worker_seq_views(out@) == all.take(i as int).filter(pred),
            decreases self.workers.len() - i,
        {
            let w = &self.workers[i];
            assert(all[i as int] == w@);
            assert(all.take(i as int + 1) =~= all.take(i as int).push(all[i as int]));
            proof {
                all.take(i as int).lemma_filter_push(all[i as int], pred);
            }
            if w.hitl_waiting {
                let ghost bo = out@;
                let c = w.clone();
                out.push(c);
                assert(worker_seq_views(out@) =~= worker_seq_views(bo).push(all[i as int]));
            }
            i = i + 1;
        }
        assert(all.take(all.len() as int) =~= all);
        out
    }

    /// Every worker waiting for the user stops waiting, and leaves its
    /// thread.
    pub fn clear_all_hitl_waiting(&mut self)
        requires
            old(self).records_wf(),
        ensures
            final(self).records_wf(),
            final(self)@ == (RunView { workers: old(self)@.workers.map_values(|w: WorkerView| answered(w)), ..old(self)@ }),
    {
        let ghost before = self@;
        let mut i: usize = 0;
        while i < self.workers.len()
            invariant
                i <= self.workers.len(),
                self.workers.len() == before.workers.len(),
                self@ == (RunView { workers: self@.workers, ..before }),
                forall|k: int| 0 <= k < i ==> self@.workers[k] == answered(before.workers[k]),
                forall|k: int| i <= k < self.workers.len() ==> self@.workers[k] == before.workers[k],
            decreases self.workers.len() - i,
        {
            assert(self@.workers[i as int] == self.workers@[i as int]@);
            let ghost prev = self@.workers;
            if self.workers[i].hitl_waiting {
                let mut w = self.workers.remove(i);
                w.hitl_waiting = false;
                w.waiting_thread = None;
                self.workers.insert(i, w);
                assert(self@.workers =~= prev.update(i as int, answered(prev[i as int])));
            }
            i = i + 1;
        }
        proof {
            let ws = self@.workers;
            assert(ws =~= before.workers.map_values(|w: WorkerView| answered(w)));
            assert forall|a: int, b: int| 0 <= a < ws.len() && 0 <= b < ws.len() && a != b implies ws[a].name != ws[b].name by {
                assert(ws[a].name == before.workers[a].name && ws[b].name == before.workers[b].name);
            }
            assert forall|a: int, b: int| 0 <= a < b < ws.len() implies ws[a].id < ws[b].id by {
                assert(ws[a].id == before.workers[a].id && ws[b].id == before.workers[b].id);
            }
        }
    }

    /// Removes the worker named `name`; the removal is recorded. Without
    /// such a worker nothing changes and `NotFound` comes back.
    pub fn delete_worker(&mut self, name: &str) -> (r: Result<(), StateError>)
        requires
            old(self).records_wf(),
        ensures
            final(self).records_wf(),
            !has_worker(old(self)@.workers, name@) ==> final(self)@ == old(self)@
                && (r matches Err(StateError::NotFound(m)) && m@ == "Worker '"@ + name@ + "' not found"@),
            has_worker(old(self)@.workers, name@) ==> r is Ok && final(self)@ == (RunView {
                workers: old(self)@.workers.remove(worker_index(old(self)@.workers, name@)),
                log: old(self)@.log.push(("worker_delete"@, Some(name@))),
                ..old(self)@
            }),
    {
        match self.find_worker(name) {
            None => Err(StateError::NotFound(concat3("Worker '", name, "' not found"))),
            Some(k) => {
                let ghost before = self@;
                let _gone = self.workers.remove(k);
                self.log.push(LogEntry { action: "worker_delete".to_owned(), detail: Some(name.to_owned()) });
                proof {
                    let ws = self@.workers;
                    let bw = before.workers;
                    assert(ws =~= bw.remove(k as int));
                    assert(self@.log =~= before.log.push(("worker_delete"@, Some(name@))));
                    assert forall|a: int, b: int| 0 <= a < ws.len() && 0 <= b < ws.len() && a != b implies ws[a].name != ws[b].name by {
                        let a2 = if a < k { a } else { a + 1 };
                        let b2 = if b < k { b } else { b + 1 };
                        assert(ws[a] == bw[a2] && ws[b] == bw[b2]);
                    }
                    assert forall|a: int, b: int| 0 <= a < b < ws.len() implies ws[a].id < ws[b].id by {
                        let a2 = if a < k { a } else { a + 1 };
                        let b2 = if b < k { b } else { b + 1 };
                        assert(ws[a] == bw[a2] && ws[b] == bw[b2]);
                    }
                }
                Ok(())
            },
        }
    }
}

} // verus!
