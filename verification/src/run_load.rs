//! Checking a run's state as it was read back from storage: the records
//! must have the shape every operation of the library relies on before the
//! library takes them up.

use vstd::prelude::*;
use crate::run_journal::{
    amendment_ids, event_ids, history_ids, ids_rise, journal_wf, message_ids, reads_unique, RunJournal,
};
use crate::run_state::{EvalView, SQLiteState, StateError, WorkerView};
use crate::run_workers::{evals_wf, workers_wf};
use crate::task_board::{has_task, lemma_task_index, parents_first, task_index, tasks_wf, unique_ids};
use crate::text::str_eq;

verus! {

/// The ids of the workers `ws`, in order.
pub open spec fn worker_ids(ws: Seq<WorkerView>) -> Seq<i64> {
    ws.map_values(|w: WorkerView| w.id)
}

/// The ids of the evals `es`, in order.
pub open spec fn eval_ids(es: Seq<EvalView>) -> Seq<i64> {
    es.map_values(|e: EvalView| e.id)
}

/// Whether the ids of the messages rise.
fn messages_rise(j: &RunJournal) -> (r: bool)
    ensures
        r == ids_rise(message_ids(j@.messages)),
{
    let ghost ids = message_ids(j@.messages);
    if j.messages.len() == 0 {
        return true;
    }
    let mut i: usize = 1;
    while i < j.messages.len()
        invariant
            1 <= i <= j.messages.len(),
            ids == message_ids(j@.messages),
            ids.len() == j.messages.len(),
            ids_rise(ids.take(i as int)),
        decreases j.messages.len() - i,
    {
        assert(ids[i - 1] == j.messages@[i - 1].id && ids[i as int] == j.messages@[i as int].id);
        if j.messages[i - 1].id >= j.messages[i].id {
            return false;
        }
        let ghost t = ids.take(i as int + 1);
        assert forall|a: int, b: int| 0 <= a < b < t.len() implies #[trigger] t[a] < #[trigger] t[b] by {
            if b == i {
                if a < i - 1 {
                    assert(ids.take(i as int)[a] < ids.take(i as int)[i - 1]);
                }
            } else {
                assert(ids.take(i as int)[a] < ids.take(i as int)[b]);
            }
        }
        i = i + 1;
    }
    assert(ids.take(j.messages.len() as int) =~= ids);
    true
}

/// Whether the ids of the history records rise.
fn history_rises(j: &RunJournal) -> (r: bool)
    ensures
        r == ids_rise(history_ids(j@.history)),
{
    let ghost ids = history_ids(j@.history);
    if j.history.len() == 0 {
        return true;
    }
    let mut i: usize = 1;
    while i < j.history.len()
        invariant
            1 <= i <= j.history.len(),
            ids == history_ids(j@.history),
            ids.len() == j.history.len(),
            ids_rise(ids.take(i as int)),
        decreases j.history.len() - i,
    {
        assert(ids[i - 1] == j.history@[i - 1].id && ids[i as int] == j.history@[i as int].id);
        if j.history[i - 1].id >= j.history[i].id {
            return false;
        }
        let ghost t = ids.take(i as int + 1);
        assert forall|a: int, b: int| 0 <= a < b < t.len() implies #[trigger] t[a] < #[trigger] t[b] by {
            if b == i {
                if a < i - 1 {
                    assert(ids.take(i as int)[a] < ids.take(i as int)[i - 1]);
                }
            } else {
                assert(ids.take(i as int)[a] < ids.take(i as int)[b]);
            }
        }
        i = i + 1;
    }
    assert(ids.take(j.history.len() as int) =~= ids);
    true
}

/// Whether the ids of the amendments rise.
fn amendments_rise(j: &RunJournal) -> (r: bool)
    ensures
        r == ids_rise(amendment_ids(j@.amendments)),
{
    let ghost ids = amendment_ids(j@.amendments);
    if j.amendments.len() == 0 {
        return true;
    }
    let mut i: usize = 1;
    while i < j.amendments.len()
        invariant
            1 <= i <= j.amendments.len(),
            ids == amendment_ids(j@.amendments),
            ids.len() == j.amendments.len(),
            ids_rise(ids.take(i as int)),
        decreases j.amendments.len() - i,
    {
        assert(ids[i - 1] == j.amendments@[i - 1].id && ids[i as int] == j.amendments@[i as int].id);
        if j.amendments[i - 1].id >= j.amendments[i].id {
            return false;
        }
        let ghost t = ids.take(i as int + 1);
        assert forall|a: int, b: int| 0 <= a < b < t.len() implies #[trigger] t[a] < #[trigger] t[b] by {
            if b == i {
                if a < i - 1 {
                    assert(ids.take(i as int)[a] < ids.take(i as int)[i - 1]);
                }
            } else {
                assert(ids.take(i as int)[a] < ids.take(i as int)[b]);
            }
        }
        i = i + 1;
    }
    assert(ids.take(j.amendments.len() as int) =~= ids);
    true
}

/// Whether the ids of the worker events rise.
fn events_rise(j: &RunJournal) -> (r: bool)
    ensures
        r == ids_rise(event_ids(j@.events)),
{
    let ghost ids = event_ids(j@.events);
    if j.events.len() == 0 {
        return true;
    }
    let mut i: usize = 1;
    while i < j.events.len()
        invariant
            1 <= i <= j.events.len(),
            ids == event_ids(j@.events),
            ids.len() == j.events.len(),
            ids_rise(ids.take(i as int)),
        decreases j.events.len() - i,
    {
        assert(ids[i - 1] == j.events@[i - 1].id && ids[i as int] == j.events@[i as int].id);
        if j.events[i - 1].id >= j.events[i].id {
            return false;
        }
        let ghost t = ids.take(i as int + 1);
        assert forall|a: int, b: int| 0 <= a < b < t.len() implies #[trigger] t[a] < #[trigger] t[b] by {
            if b == i {
                if a < i - 1 {
                    assert(ids.take(i as int)[a] < ids.take(i as int)[i - 1]);
                }
            } else {
                assert(ids.take(i as int)[a] < ids.take(i as int)[b]);
            }
        }
        i = i + 1;
    }
    assert(ids.take(j.events.len() as int) =~= ids);
    true
}

/// Whether the ids of the workers rise.
fn worker_ids_rise(s: &SQLiteState) -> (r: bool)
    ensures
        r == ids_rise(worker_ids(s@.workers)),
{
    let ghost ids = worker_ids(s@.workers);
    if s.workers.len() == 0 {
        return true;
    }
    let mut i: usize = 1;
    while i < s.workers.len()
        invariant
            1 <= i <= s.workers.len(),
            ids == worker_ids(s@.workers),
            ids.len() == s.workers.len(),
            ids_rise(ids.take(i as int)),
        decreases s.workers.len() - i,
    {
        assert(ids[i - 1] == s.workers@[i - 1].id && ids[i as int] == s.workers@[i as int].id);
        if s.workers[i - 1].id >= s.workers[i].id {
            return false;
        }
        let ghost t = ids.take(i as int + 1);
        assert forall|a: int, b: int| 0 <= a < b < t.len() implies #[trigger] t[a] < #[trigger] t[b] by {
            if b == i {
                if a < i - 1 {
                    assert(ids.take(i as int)[a] < ids.take(i as int)[i - 1]);
                }
            } else {
                assert(ids.take(i as int)[a] < ids.take(i as int)[b]);
            }
        }
        i = i + 1;
    }
    assert(ids.take(s.workers.len() as int) =~= ids);
    true
}

/// Whether the ids of the evals rise.
fn eval_ids_rise(s: &SQLiteState) -> (r: bool)
    ensures
        r == ids_rise(eval_ids(s@.evals)),
{
    let ghost ids = eval_ids(s@.evals);
    if s.evals.len() == 0 {
        return true;
    }
    let mut i: usize = 1;
    while i < s.evals.len()
        invariant
            1 <= i <= s.evals.len(),
            ids == eval_ids(s@.evals),
            ids.len() == s.evals.len(),
            ids_rise(ids.take(i as int)),
        decreases s.evals.len() - i,
    {
        assert(ids[i - 1] == s.evals@[i - 1].id && ids[i as int] == s.evals@[i as int].id);
        if s.evals[i - 1].id >= s.evals[i].id {
            return false;
        }
        let ghost t = ids.take(i as int + 1);
        assert forall|a: int, b: int| 0 <= a < b < t.len() implies #[trigger] t[a] < #[trigger] t[b] by {
            if b == i {
                if a < i - 1 {
                    assert(ids.take(i as int)[a] < ids.take(i as int)[i - 1]);
                }
            } else {
                assert(ids.take(i as int)[a] < ids.take(i as int)[b]);
            }
        }
        i = i + 1;
    }
    assert(ids.take(s.evals.len() as int) =~= ids);
    true
}

/// Whether no reader holds two read marks for one thread.
fn reads_are_unique(j: &RunJournal) -> (r: bool)
    ensures
        r == reads_unique(j@.reads),
{
    let ghost rs = j@.reads;
    let n = j.reads.len();
    let mut b: usize = 0;
    while b < n
        invariant
            b <= n,
            n == j.reads.len(),
            rs == j@.reads,
            forall|x: int, y: int| 0 <= x < y < b ==> !((#[trigger] rs[x]).worker_name == (#[trigger] rs[y]).worker_name
                && rs[x].thread == rs[y].thread),
        decreases n - b,
    {
        let mut a: usize = 0;
        while a < b
            invariant
                a <= b,
                b < n,
                n == j.reads.len(),
                rs == j@.reads,
                forall|x: int, y: int| 0 <= x < y < b ==> !((#[trigger] rs[x]).worker_name == (#[trigger] rs[y]).worker_name
                    && rs[x].thread == rs[y].thread),
                forall|x: int| 0 <= x < a ==> !((#[trigger] rs[x]).worker_name == rs[b as int].worker_name
                    && rs[x].thread == rs[b as int].thread),
            decreases b - a,
        {
            assert(rs[a as int] == j.reads@[a as int]@ && rs[b as int] == j.reads@[b as int]@);
            if str_eq(j.reads[a].worker_name.as_str(), j.reads[b].worker_name.as_str())
                && str_eq(j.reads[a].thread.as_str(), j.reads[b].thread.as_str()) {
                return false;
            }
            a = a + 1;
        }
        b = b + 1;
    }
    true
}

/// Whether no two workers share a name.
fn worker_names_unique(s: &SQLiteState) -> (r: bool)
    ensures
        r == forall|i: int, j: int| 0 <= i < s@.workers.len() && 0 <= j < s@.workers.len() && i != j
            ==> s@.workers[i].name != s@.workers[j].name,
{
    let ghost ws = s@.workers;
    let n = s.workers.len();
    let mut b: usize = 0;
    while b < n
        invariant
            b <= n,
            n == s.workers.len(),
            ws == s@.workers,
            forall|x: int, y: int| 0 <= x < b && 0 <= y < b && x != y ==> ws[x].name != ws[y].name,
        decreases n - b,
    {
        let mut a: usize = 0;
        while a < b
            invariant
                a <= b,
                b < n,
                n == s.workers.len(),
                ws == s@.workers,
                forall|x: int, y: int| 0 <= x < b && 0 <= y < b && x != y ==> ws[x].name != ws[y].name,
                forall|x: int| 0 <= x < a ==> ws[x].name != ws[b as int].name,
            decreases b - a,
        {
            assert(ws[a as int] == s.workers@[a as int]@ && ws[b as int] == s.workers@[b as int]@);
            if str_eq(s.workers[a].name.as_str(), s.workers[b].name.as_str()) {
                return false;
            }
            a = a + 1;
        }
        b = b + 1;
    }
    true
}

/// Whether the task tree is well formed: unique ids, and every task's
/// parent present before it.
fn tasks_well_formed(s: &SQLiteState) -> (r: bool)
    ensures
        r == tasks_wf(s@.tasks),
{
    let ghost ts = s@.tasks;
    let n = s.tasks.len();
    let mut b: usize = 0;
    while b < n
        invariant
            b <= n,
            n == s.tasks.len(),
            ts == s@.tasks,
            forall|x: int, y: int| 0 <= x < b && 0 <= y < b && x != y ==> ts[x].id != ts[y].id,
        decreases n - b,
    {
        let mut a: usize = 0;
        while a < b
            invariant
                a <= b,
                b < n,
                n == s.tasks.len(),
                ts == s@.tasks,
                forall|x: int, y: int| 0 <= x < b && 0 <= y < b && x != y ==> ts[x].id != ts[y].id,
                forall|x: int| 0 <= x < a ==> ts[x].id != ts[b as int].id,
            decreases b - a,
        {
            assert(ts[a as int] == s.tasks@[a as int]@ && ts[b as int] == s.tasks@[b as int]@);
            if str_eq(s.tasks[a].id.as_str(), s.tasks[b].id.as_str()) {
                return false;
            }
            a = a + 1;
        }
        b = b + 1;
    }
    assert(unique_ids(ts));
    let mut i: usize = 0;
    while i < n
        invariant
            i <= n,
            n == s.tasks.len(),
            ts == s@.tasks,
            unique_ids(ts),
            forall|k: int| 0 <= k < i ==> match #[trigger] ts[k].parent_id {
                Some(p) => has_task(ts, p) && task_index(ts, p) < k,
                None => true,
            },
        decreases n - i,
    {
        assert(ts[i as int] == s.tasks@[i as int]@);
        if let Some(p) = &s.tasks[i].parent_id {
            let mut k: usize = 0;
            let mut found = false;
            while k < i
                invariant
                    k <= i,
                    i < n,
                    n == s.tasks.len(),
                    ts == s@.tasks,
                    unique_ids(ts),
                    found ==> has_task(ts, p@) && task_index(ts, p@) < i,
                    !found ==> forall|q: int| 0 <= q < k ==> ts[q].id != p@,
                decreases i - k,
            {
                assert(ts[k as int] == s.tasks@[k as int]@);
                if !found && str_eq(s.tasks[k].id.as_str(), p.as_str()) {
                    proof {
                        lemma_task_index(ts, k as int);
                    }
                    found = true;
                }
                k = k + 1;
            }
            if !found {
                proof {
                        assert(ts[i as int].parent_id == Some(p@));
                    if has_task(ts, p@) {
                        let q = choose|q: int| 0 <= q < ts.len() && ts[q].id == p@;
                        lemma_task_index(ts, q);
                    }
                }
                return false;
            }
        }
        i = i + 1;
    }
    true
}

/// Evals are well formed exactly when their ids rise.
proof fn lemma_evals_wf(es: Seq<EvalView>)
    ensures
        evals_wf(es) <==> ids_rise(eval_ids(es)),
{
    let ids = eval_ids(es);
    if ids_rise(ids) {
        assert forall|i: int, j: int| 0 <= i < j < es.len() implies es[i].id < es[j].id by {
            assert(ids[i] == es[i].id && ids[j] == es[j].id);
        }
    }
    if evals_wf(es) {
        assert forall|a: int, b: int| 0 <= a < b < ids.len() implies ids[a] < ids[b] by {
            assert(ids[a] == es[a].id && ids[b] == es[b].id);
        }
    }
}

/// Workers with distinct names are well formed exactly when their ids rise.
proof fn lemma_workers_wf(ws: Seq<WorkerView>)
    requires
        forall|i: int, j: int| 0 <= i < ws.len() && 0 <= j < ws.len() && i != j ==> ws[i].name != ws[j].name,
    ensures
        workers_wf(ws) <==> ids_rise(worker_ids(ws)),
{
    let ids = worker_ids(ws);
    if ids_rise(ids) {
        assert forall|i: int, j: int| 0 <= i < j < ws.len() implies ws[i].id < ws[j].id by {
            assert(ids[i] == ws[i].id && ids[j] == ws[j].id);
        }
    }
    if workers_wf(ws) {
        assert forall|a: int, b: int| 0 <= a < b < ids.len() implies ids[a] < ids[b] by {
            assert(ids[a] == ws[a].id && ids[b] == ws[b].id);
        }
    }
}

/// Why stored records are refused.
pub open spec fn refusal(s: SQLiteState) -> Option<Seq<char>> {
    if !tasks_wf(s@.tasks) {
        Some("stored tasks: a duplicate id or a parent missing before its child"@)
    } else if !workers_wf(s@.workers) {
        Some("stored workers: a duplicate name or ids out of order"@)
    } else if !evals_wf(s@.evals) {
        Some("stored evals: ids out of order"@)
    } else if !journal_wf(s@.journal) {
        Some("stored journal: ids out of order or a duplicate read mark"@)
    } else {
        None
    }
}

impl SQLiteState {
    /// A run state read back from storage, taken up when its records have
    /// the shape every operation relies on: a well-formed task tree, workers
    /// with distinct names and rising ids, evals with rising ids, and a
    /// well-formed journal. Otherwise `InvalidState` names the first kind of
    /// record that breaks it.
    pub fn from_stored(s: SQLiteState) -> (r: Result<SQLiteState, StateError>)
        ensures
            match refusal(s) {
                None => r matches Ok(x) && x@ == s@ && x.wf() && x.records_wf() && x.journal_wf(),
                Some(m) => r matches Err(StateError::InvalidState(e)) && e@ == m,
            },
    {
        if !tasks_well_formed(&s) {
            return Err(StateError::InvalidState(
                "stored tasks: a duplicate id or a parent missing before its child".to_owned(),
            ));
        }
        let names = worker_names_unique(&s);
        proof {
            if names {
                lemma_workers_wf(s@.workers);
            }
        }
        if !(names && worker_ids_rise(&s)) {
            return Err(StateError::InvalidState("stored workers: a duplicate name or ids out of order".to_owned()));
        }
        proof {
            lemma_evals_wf(s@.evals);
        }
        if !eval_ids_rise(&s) {
            return Err(StateError::InvalidState("stored evals: ids out of order".to_owned()));
        }
        let j = &s.journal;
        if !(messages_rise(j) && history_rises(j) && amendments_rise(j) && events_rise(j) && reads_are_unique(j)) {
            return Err(StateError::InvalidState(
                "stored journal: ids out of order or a duplicate read mark".to_owned(),
            ));
        }
        Ok(s)
    }
}

} // verus!
