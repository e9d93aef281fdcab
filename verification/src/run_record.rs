//! The run record of the per-run store: the run status with its checked
//! transitions and failure reason, the iteration counter, and the queue of
//! learnings that workers submit for the scribe, processed in batches.

use vstd::prelude::*;
use crate::run_state::{clone_opt, opt_view, LogEntry};
use crate::state_types::{FailureReason, StateError, Status};
use crate::text::{concat, concat3, decimal, signed_decimal, str_eq, to_signed_decimal};
use crate::run_columns::{default_columns, default_run_columns, touched, ColumnsView, RunColumns};
use crate::run_journal::{opt_chars, own_opt};

verus! {

/// Whether the run may go from status `from` to status `to`: staying put is
/// always allowed; otherwise a draft starts working; a working run pauses,
/// fails, goes to eval or finishes; a paused run resumes or fails; a failed
/// run is retried or paused; a run in eval finishes, fails, goes back to work
/// or pauses; a finished run is delivered.
pub open spec fn transition_allowed(from: Status, to: Status) -> bool {
    ||| from == to
    ||| (from == Status::Draft && to == Status::Working)
    ||| (from == Status::Working && (to == Status::Paused || to == Status::Failed || to == Status::Eval
        || to == Status::Done))
    ||| (from == Status::Paused && (to == Status::Working || to == Status::Failed))
    ||| (from == Status::Failed && (to == Status::Working || to == Status::Paused))
    ||| (from == Status::Eval && (to == Status::Done || to == Status::Failed || to == Status::Working
        || to == Status::Paused))
    ||| (from == Status::Done && to == Status::Delivered)
}

/// A learning a worker submitted for the scribe.
#[derive(Debug)]
pub struct ScribeSubmission {
    pub id: i64,
    pub worker_name: String,
    pub content: String,
    /// `pending`, `processing`, `done` or `failed`.
    pub status: String,
    pub batch_id: Option<i64>,
    pub retry_count: i32,
    pub created_at: String,
    pub processed_at: Option<String>,
}

/// The contents of a submission.
pub struct SubmissionView {
    pub id: i64,
    pub worker_name: Seq<char>,
    pub content: Seq<char>,
    pub status: Seq<char>,
    pub batch_id: Option<i64>,
    pub retry_count: i32,
    pub created_at: Seq<char>,
    pub processed_at: Option<Seq<char>>,
}

impl View for ScribeSubmission {
    type V = SubmissionView;

    open spec fn view(&self) -> SubmissionView {
        SubmissionView {
            id: self.id,
            worker_name: self.worker_name@,
            content: self.content@,
            status: self.status@,
            batch_id: self.batch_id,
            retry_count: self.retry_count,
            created_at: self.created_at@,
            processed_at: opt_view(self.processed_at),
        }
    }
}

impl Clone for ScribeSubmission {
    fn clone(&self) -> (r: Self)
        ensures
            r@ == self@,
    {
        ScribeSubmission {
            id: self.id,
            worker_name: self.worker_name.clone(),
            content: self.content.clone(),
            status: self.status.clone(),
            batch_id: self.batch_id,
            retry_count: self.retry_count,
            created_at: self.created_at.clone(),
            processed_at: clone_opt(&self.processed_at),
        }
    }
}

/// The run record.
#[derive(Debug)]
pub struct RunRecord {
    pub status: Status,
    pub failure_reason: Option<FailureReason>,
    pub iteration_count: i64,
    /// Bumped each time the scribe finishes a batch, so workers re-sync.
    pub docs_version: i64,
    /// When the oldest pending submission came in, while a batch gathers.
    pub scribe_batch_started_at: Option<String>,
    /// Submissions in order of id.
    pub submissions: Vec<ScribeSubmission>,
    /// History records written since the record was loaded, oldest first.
    pub log: Vec<LogEntry>,
    /// The other columns of the run.
    pub columns: RunColumns,
}

/// The contents of a run record.
pub struct RecordView {
    pub status: Status,
    pub failure_reason: Option<FailureReason>,
    pub iteration_count: i64,
    pub docs_version: i64,
    pub batch_started_at: Option<Seq<char>>,
    pub submissions: Seq<SubmissionView>,
    pub log: Seq<(Seq<char>, Option<Seq<char>>)>,
    pub columns: ColumnsView,
}

impl View for RunRecord {
    type V = RecordView;

    open spec fn view(&self) -> RecordView {
        RecordView {
            status: self.status,
            failure_reason: self.failure_reason,
            iteration_count: self.iteration_count,
            docs_version: self.docs_version,
            batch_started_at: opt_view(self.scribe_batch_started_at),
            submissions: self.submissions@.map_values(|s: ScribeSubmission| s@),
            log: self.log@.map_values(|e: LogEntry| e@),
            columns: self.columns@,
        }
    }
}

/// Submission ids increase along the queue.
pub open spec fn ids_increase(subs: Seq<SubmissionView>) -> bool {
    forall|a: int, c: int| 0 <= a < c < subs.len() ==> (#[trigger] subs[a]).id < (#[trigger] subs[c]).id
}

/// The history record of a status change to `s`.
pub open spec fn status_entry(s: Status) -> (Seq<char>, Option<Seq<char>>) {
    ("status_change"@, Some("run "@ + s.name()))
}

/// Whether a submission still waits for the scribe: pending, or failed fewer
/// than three times.
pub open spec fn waits_for_scribe(s: SubmissionView) -> bool {
    s.status == "pending"@ || (s.status == "failed"@ && s.retry_count < 3)
}

/// Whether a submission is pending.
pub open spec fn is_pending(s: SubmissionView) -> bool {
    s.status == "pending"@
}

/// The id the store gives the next submission: one past the last.
pub open spec fn next_submission_id(subs: Seq<SubmissionView>) -> int {
    if subs.len() == 0 {
        1
    } else {
        subs.last().id + 1
    }
}

/// The highest batch id used so far, or 0.
pub open spec fn max_batch(subs: Seq<SubmissionView>) -> int
    decreases subs.len(),
{
    if subs.len() == 0 {
        0
    } else {
        let m = max_batch(subs.drop_last());
        match subs.last().batch_id {
            Some(b) => if b > m { b as int } else { m },
            None => m,
        }
    }
}

/// The submission `s` after the batch `batch_id` finished at `now`.
pub open spec fn settled(s: SubmissionView, batch_id: i64, success: bool, now: Seq<char>) -> SubmissionView {
    if s.batch_id == Some(batch_id) && s.status == "processing"@ {
        if success {
            SubmissionView { status: "done"@, processed_at: Some(now), ..s }
        } else {
            SubmissionView { status: "failed"@, retry_count: (s.retry_count + 1) as i32, ..s }
        }
    } else {
        s
    }
}

/// The submission `s` after the submissions `ids` were taken into the batch
/// `batch_id`.
pub open spec fn taken(s: SubmissionView, ids: Seq<i64>, batch_id: i64) -> SubmissionView {
    if ids.contains(s.id) {
        SubmissionView { status: "processing"@, batch_id: Some(batch_id), ..s }
    } else {
        s
    }
}

impl RunRecord {
    /// The queue's ids increase.
    pub open spec fn wf(&self) -> bool {
        ids_increase(self@.submissions)
    }

    /// A new run at `now` in the project `project_path`, if given: a draft
    /// with no failure, no iterations, docs at version 0, no submissions and
    /// every other column at its default; its start is recorded.
    pub fn init_state(project_path: Option<&str>, now: &str) -> (r: RunRecord)
        ensures
            r.wf(),
            r@.status == Status::Draft,
            r@.failure_reason is None,
            r@.iteration_count == 0,
            r@.docs_version == 0,
            r@.batch_started_at is None,
            r@.submissions.len() == 0,
            r@.log == seq![("init"@, None::<Seq<char>>)],
            r@.columns == (ColumnsView { project_path: opt_chars(project_path), ..default_columns(now@) }),
    {
        let mut log: Vec<LogEntry> = Vec::new();
        log.push(LogEntry { action: "init".to_owned(), detail: None });
        let mut columns = default_run_columns(now);
        columns.project_path = own_opt(project_path);
        let r = RunRecord {
            status: Status::Draft,
            failure_reason: None,
            iteration_count: 0,
            docs_version: 0,
            scribe_batch_started_at: None,
            submissions: Vec::new(),
            log,
            columns,
        };
        assert(r@.log =~= seq![("init"@, None::<Seq<char>>)]);
        assert(r@.submissions =~= Seq::<SubmissionView>::empty());
        r
    }

    /// Whether the run may go from `from` to `to`.
    pub fn can_transition_to(from: Status, to: Status) -> (r: bool)
        ensures
            r == transition_allowed(from, to),
    {
        if from == to {
            return true;
        }
        match (from, to) {
            (Status::Draft, Status::Working) => true,
            (Status::Working, Status::Paused) => true,
            (Status::Working, Status::Failed) => true,
            (Status::Working, Status::Eval) => true,
            (Status::Working, Status::Done) => true,
            (Status::Paused, Status::Working) => true,
            (Status::Paused, Status::Failed) => true,
            (Status::Failed, Status::Working) => true,
            (Status::Failed, Status::Paused) => true,
            (Status::Eval, Status::Done) => true,
            (Status::Eval, Status::Failed) => true,
            (Status::Eval, Status::Working) => true,
            (Status::Eval, Status::Paused) => true,
            (Status::Done, Status::Delivered) => true,
            _ => false,
        }
    }

    /// The run status.
    pub fn status(&self) -> (r: Status)
        ensures
            r == self@.status,
    {
        self.status
    }

    /// Moves the run to `status`. With `validate`, a transition that
    /// `transition_allowed` refuses fails and changes nothing. Leaving the
    /// failed status clears the failure reason; a change is recorded.
    pub fn set_status_validated(&mut self, status: Status, validate: bool, now: &str) -> (r: Result<(), StateError>)
        ensures
            final(self)@.submissions == old(self)@.submissions,
            final(self)@.iteration_count == old(self)@.iteration_count,
            final(self)@.docs_version == old(self)@.docs_version,
            final(self)@.batch_started_at == old(self)@.batch_started_at,
            old(self)@.status == status ==> r is Ok && final(self)@ == old(self)@,
            old(self)@.status != status && validate && !transition_allowed(old(self)@.status, status) ==> {
                &&& r matches Err(StateError::InvalidTransition(a, b)) && a == old(self)@.status && b == status
                &&& final(self)@ == old(self)@
            },
            old(self)@.status != status && (!validate || transition_allowed(old(self)@.status, status)) ==> {
                &&& r is Ok
                &&& final(self)@.status == status
                &&& final(self)@.failure_reason == if old(self)@.status == Status::Failed {
                    None
                } else {
                    old(self)@.failure_reason
                }
                &&& final(self)@.log == old(self)@.log.push(status_entry(status))
                &&& final(self)@.columns == touched(old(self)@.columns, now@)
            },
    {
        let old_status = self.status;
        if old_status == status {
            return Ok(());
        }
        if validate && !Self::can_transition_to(old_status, status) {
            return Err(StateError::InvalidTransition(old_status, status));
        }
        let ghost before = self@;
        self.status = status;
        self.columns.updated_at = now.to_owned();
        if old_status == Status::Failed {
            self.failure_reason = None;
        }
        let detail = concat("run ", status.as_str());
        self.log.push(LogEntry { action: "status_change".to_owned(), detail: Some(detail) });
        assert(self@.log =~= before.log.push(status_entry(status)));
        assert(self@.submissions == before.submissions);
        Ok(())
    }

    /// Moves the run to `status` if the transition is allowed.
    pub fn set_status(&mut self, status: Status, now: &str) -> (r: Result<(), StateError>)
        ensures
            final(self)@.submissions == old(self)@.submissions,
            final(self)@.iteration_count == old(self)@.iteration_count,
            final(self)@.docs_version == old(self)@.docs_version,
            final(self)@.batch_started_at == old(self)@.batch_started_at,
            r is Ok <==> transition_allowed(old(self)@.status, status),
            r is Err ==> final(self)@ == old(self)@,
            r is Err ==> (r matches Err(StateError::InvalidTransition(a, b)) && a == old(self)@.status
                && b == status),
            old(self)@.status == status ==> final(self)@ == old(self)@,
            old(self)@.status != status && r is Ok ==> {
                &&& final(self)@.status == status
                &&& final(self)@.failure_reason == if old(self)@.status == Status::Failed {
                    None
                } else {
                    old(self)@.failure_reason
                }
                &&& final(self)@.log == old(self)@.log.push(status_entry(status))
                &&& final(self)@.columns == touched(old(self)@.columns, now@)
            },
    {
        self.set_status_validated(status, true, now)
    }

    /// The reason the run failed, if it did.
    pub fn get_failure_reason(&self) -> (r: Option<FailureReason>)
        ensures
            r == self@.failure_reason,
    {
        self.failure_reason
    }

    /// Sets or clears the failure reason, at `now`.
    pub fn set_failure_reason(&mut self, reason: Option<FailureReason>, now: &str)
        ensures
            final(self)@ == (RecordView { failure_reason: reason, columns: touched(old(self)@.columns, now@), ..old(self)@ }),
    {
        self.failure_reason = reason;
        self.columns.updated_at = now.to_owned();
    }

    /// Records `reason` and fails the run. The reason is kept even when the
    /// run may not fail from its status; then the transition error comes back.
    pub fn set_failed(&mut self, reason: FailureReason, now: &str) -> (r: Result<(), StateError>)
        ensures
            final(self)@.submissions == old(self)@.submissions,
            r is Ok <==> transition_allowed(old(self)@.status, Status::Failed),
            r is Ok ==> final(self)@.status == Status::Failed && final(self)@.failure_reason == Some(reason),
            r is Err ==> final(self)@ == (RecordView {
                failure_reason: Some(reason),
                columns: touched(old(self)@.columns, now@),
                ..old(self)@
            }),
            r is Ok ==> final(self)@.columns == touched(old(self)@.columns, now@),
            old(self)@.status == Status::Failed ==> final(self)@.log == old(self)@.log,
            old(self)@.status != Status::Failed && r is Ok ==> final(self)@.log == old(self)@.log.push(
                status_entry(Status::Failed),
            ),
    {
        self.set_failure_reason(Some(reason), now);
        self.set_status(Status::Failed, now)
    }

    /// How many iterations the run went through.
    pub fn get_iteration_count(&self) -> (r: i64)
        ensures
            r == self@.iteration_count,
    {
        self.iteration_count
    }

    /// Counts one more iteration at `now` and returns the new count.
    pub fn increment_iteration(&mut self, now: &str) -> (r: i64)
        requires
            old(self)@.iteration_count < i64::MAX,
        ensures
            r == old(self)@.iteration_count + 1,
            final(self)@ == (RecordView { iteration_count: r, columns: touched(old(self)@.columns, now@), ..old(self)@ }),
    {
        self.columns.updated_at = now.to_owned();
        self.iteration_count = self.iteration_count + 1;
        self.iteration_count
    }

    /// The docs version workers sync to.
    pub fn get_docs_version(&self) -> (r: i64)
        ensures
            r == self@.docs_version,
    {
        self.docs_version
    }

    /// When the batch now gathering started, if one is.
    pub fn get_scribe_batch_started_at(&self) -> (r: Option<String>)
        ensures
            opt_view(r) == self@.batch_started_at,
    {
        clone_opt(&self.scribe_batch_started_at)
    }
}

/// Whether the submission at position `i` is the first one in processing.
pub open spec fn first_processing(subs: Seq<SubmissionView>, i: int) -> bool {
    &&& 0 <= i < subs.len()
    &&& subs[i].status == "processing"@
    &&& forall|j: int| 0 <= j < i ==> (#[trigger] subs[j]).status != "processing"@
}

/// Whether a submission is part of the batch `batch_id` now being processed.
pub open spec fn in_batch(s: SubmissionView, batch_id: i64) -> bool {
    s.batch_id == Some(batch_id) && s.status == "processing"@
}

/// The history record of a submission by `worker`.
pub open spec fn submit_entry(worker: Seq<char>) -> (Seq<char>, Option<Seq<char>>) {
    ("scribe_submit"@, Some("Worker '"@ + worker + "' submitted learning"@))
}

/// The history record of the end of batch `batch_id`.
pub open spec fn batch_entry(batch_id: i64, success: bool) -> (Seq<char>, Option<Seq<char>>) {
    ("scribe_batch"@, Some("Batch "@ + signed_decimal(batch_id as int) + " "@ + if success {
        "completed"@
    } else {
        "failed"@
    }))
}

impl RunRecord {
    /// Queues a learning `content` from `worker_name`, at `now`, and returns
    /// its id. The first pending submission starts the batch timer.
    pub fn add_scribe_submission(&mut self, worker_name: &str, content: &str, now: String) -> (r: i64)
        requires
            old(self).wf(),
            next_submission_id(old(self)@.submissions) <= i64::MAX,
        ensures
            final(self).wf(),
            r == next_submission_id(old(self)@.submissions),
            final(self)@.submissions == old(self)@.submissions.push(SubmissionView {
                id: r,
                worker_name: worker_name@,
                content: content@,
                status: "pending"@,
                batch_id: None,
                retry_count: 0,
                created_at: now@,
                processed_at: None,
            }),
            final(self)@.batch_started_at == if final(self)@.submissions.filter(|s: SubmissionView| is_pending(s)).len() == 1 {
                Some(now@)
            } else {
                old(self)@.batch_started_at
            },
            final(self)@.log == old(self)@.log.push(submit_entry(worker_name@)),
            final(self)@.status == old(self)@.status,
            final(self)@.failure_reason == old(self)@.failure_reason,
            final(self)@.iteration_count == old(self)@.iteration_count,
            final(self)@.docs_version == old(self)@.docs_version,
            final(self)@.columns == old(self)@.columns,
    {
        let id: i64 = if self.submissions.len() == 0 {
            1
        } else {
            self.submissions[self.submissions.len() - 1].id + 1
        };
        let ghost before = self@;
        let sub = ScribeSubmission {
            id,
            worker_name: worker_name.to_owned(),
            content: content.to_owned(),
            status: "pending".to_owned(),
            batch_id: None,
            retry_count: 0,
            created_at: now.clone(),
            processed_at: None,
        };
        self.submissions.push(sub);
        let ghost subs = self@.submissions;
        proof {
            reveal_strlit("pending");
            assert(subs =~= before.submissions.push(self.submissions@[self.submissions.len() - 1]@));
            assert forall|a: int, c: int| 0 <= a < c < subs.len() implies (#[trigger] subs[a]).id < (#[trigger] subs[c]).id by {
                if c == before.submissions.len() {
                    assert(subs[a] == before.submissions[a]);
                    assert(before.submissions[a].id <= before.submissions.last().id);
                } else {
                    assert(subs[a] == before.submissions[a] && subs[c] == before.submissions[c]);
                }
            }
        }
        let mut pending: usize = 0;
        let mut i: usize = 0;
        assert(subs.take(0).filter(|s: SubmissionView| is_pending(s)) =~= Seq::<SubmissionView>::empty()) by {
            reveal(Seq::filter);
            assert(subs.take(0) =~= Seq::<SubmissionView>::empty());
        }
        while i < self.submissions.len()
            invariant
                i <= self.submissions.len(),
                subs == self@.submissions,
                subs.len() == self.submissions.len(),
                pending == subs.take(i as int).filter(|s: SubmissionView| is_pending(s)).len(),
                pending <= i,
            decreases self.submissions.len() - i,
        {
            assert(subs.take(i as int + 1) =~= subs.take(i as int).push(subs[i as int]));
            proof {
                subs.take(i as int).lemma_filter_push(subs[i as int], |s: SubmissionView| is_pending(s));
            }
            assert(subs[i as int] == self.submissions@[i as int]@);
            if str_eq(self.submissions[i].status.as_str(), "pending") {
                pending = pending + 1;
            }
            i = i + 1;
        }
        assert(subs.take(subs.len() as int) =~= subs);
        if pending == 1 {
            self.scribe_batch_started_at = Some(now);
        }
        let detail = concat3("Worker '", worker_name, "' submitted learning");
        let ghost lg = self@.log;
        self.log.push(LogEntry { action: "scribe_submit".to_owned(), detail: Some(detail) });
        assert(self@.log =~= lg.push(submit_entry(worker_name@)));
        id
    }

    /// The submissions still waiting for the scribe, in order of id: the
    /// pending ones and the failed ones tried fewer than three times.
    pub fn get_pending_scribe_submissions(&self) -> (r: Vec<ScribeSubmission>)
        ensures
            r@.map_values(|s: ScribeSubmission| s@) == self@.submissions.filter(|s: SubmissionView| waits_for_scribe(s)),
    {
        let ghost subs = self@.submissions;
        let mut out: Vec<ScribeSubmission> = Vec::new();
        let mut i: usize = 0;
        proof {
            reveal(Seq::filter);
            assert(subs.take(0) =~= Seq::<SubmissionView>::empty());
            assert(subs.take(0).filter(|s: SubmissionView| waits_for_scribe(s)) =~= Seq::<SubmissionView>::empty());
            assert(out@.map_values(|s: ScribeSubmission| s@) =~= Seq::<SubmissionView>::empty());
        }
        while i < self.submissions.len()
            invariant
                i <= self.submissions.len(),
                subs == self@.submissions,
                subs.len() == self.submissions.len(),
                out@.map_values(|s: ScribeSubmission| s@) == subs.take(i as int).filter(|s: SubmissionView| waits_for_scribe(s)),
            decreases self.submissions.len() - i,
        {
            assert(subs.take(i as int + 1) =~= subs.take(i as int).push(subs[i as int]));
            proof {
                subs.take(i as int).lemma_filter_push(subs[i as int], |s: SubmissionView| waits_for_scribe(s));
            }
            assert(subs[i as int] == self.submissions@[i as int]@);
            let st = self.submissions[i].status.as_str();
            if str_eq(st, "pending") || (str_eq(st, "failed") && self.submissions[i].retry_count < 3) {
                let ghost before = out@;
                let c = self.submissions[i].clone();
                out.push(c);
                assert(out@.map_values(|s: ScribeSubmission| s@) =~= before.map_values(|s: ScribeSubmission| s@).push(subs[i as int]));
            }
            i = i + 1;
        }
        assert(subs.take(subs.len() as int) =~= subs);
        out
    }

    /// The batch being processed, if any: that of the first submission in
    /// processing.
    pub fn get_processing_scribe_batch(&self) -> (r: Option<i64>)
        ensures
            match r {
                Some(b) => exists|i: int| #[trigger] first_processing(self@.submissions, i)
                    && self@.submissions[i].batch_id == Some(b),
                None => forall|i: int| #[trigger] first_processing(self@.submissions, i)
                    ==> self@.submissions[i].batch_id is None,
            },
    {
        let mut i: usize = 0;
        while i < self.submissions.len()
            invariant
                i <= self.submissions.len(),
                forall|j: int| 0 <= j < i ==> (#[trigger] self@.submissions[j]).status != "processing"@,
            decreases self.submissions.len() - i,
        {
            assert(self@.submissions[i as int] == self.submissions@[i as int]@);
            if str_eq(self.submissions[i].status.as_str(), "processing") {
                assert(first_processing(self@.submissions, i as int));
                proof {
                    assert forall|k: int| #[trigger] first_processing(self@.submissions, k) implies k == i by {
                        if k < i {
                        } else if k > i {
                            assert(self@.submissions[i as int].status == "processing"@);
                        }
                    }
                }
                return self.submissions[i].batch_id;
            }
            i = i + 1;
        }
        None
    }

    /// Takes the submissions `ids` into the batch `batch_id`.
    pub fn mark_scribe_processing(&mut self, ids: &[i64], batch_id: i64)
        requires
            old(self).wf(),
        ensures
            final(self).wf(),
            final(self)@ == (RecordView {
                submissions: old(self)@.submissions.map_values(|s: SubmissionView| taken(s, ids@, batch_id)),
                ..old(self)@
            }),
    {
        let ghost before = self@;
        let mut i: usize = 0;
        while i < self.submissions.len()
            invariant
                i <= self.submissions.len(),
                self.submissions.len() == before.submissions.len(),
                self@.status == before.status,
                self@.failure_reason == before.failure_reason,
                self@.columns == before.columns,
                self@.iteration_count == before.iteration_count,
                self@.docs_version == before.docs_version,
                self@.batch_started_at == before.batch_started_at,
                self@.log == before.log,
                forall|j: int| 0 <= j < i ==> (#[trigger] self@.submissions[j]) == taken(before.submissions[j], ids@, batch_id),
                forall|j: int| i <= j < self.submissions.len() ==> (#[trigger] self@.submissions[j]) == before.submissions[j],
            decreases self.submissions.len() - i,
        {
            let id = self.submissions[i].id;
            let mut hit = false;
            let mut k: usize = 0;
            while k < ids.len()
                invariant
                    k <= ids.len(),
                    hit == exists|q: int| 0 <= q < k && ids@[q] == id,
                decreases ids.len() - k,
            {
                if ids[k] == id {
                    hit = true;
                }
                k = k + 1;
            }
            assert(hit == ids@.contains(id));
            let ghost cur = self@;
            let ghost cur_v = self.submissions@;
            assert(cur.submissions[i as int] == before.submissions[i as int]);
            if hit {
                self.submissions[i].status = "processing".to_owned();
                self.submissions[i].batch_id = Some(batch_id);
            }
            proof {
                reveal_strlit("processing");
                assert(self@.submissions[i as int] == self.submissions@[i as int]@);
                assert forall|j: int| 0 <= j < self.submissions.len() && j != i implies (#[trigger] self@.submissions[j]) == cur.submissions[j] by {
                    assert(self.submissions@[j] == cur_v[j]);
                    assert(self@.submissions[j] == self.submissions@[j]@);
                    assert(cur.submissions[j] == cur_v[j]@);
                }
            }
            i = i + 1;
        }
        assert(self@.submissions =~= before.submissions.map_values(|s: SubmissionView| taken(s, ids@, batch_id)));
        proof {
            let subs = self@.submissions;
            assert forall|a: int, c: int| 0 <= a < c < subs.len() implies (#[trigger] subs[a]).id < (#[trigger] subs[c]).id by {
                assert(subs[a].id == before.submissions[a].id);
                assert(subs[c].id == before.submissions[c].id);
            }
        }
    }
}

impl RunRecord {
    /// Ends the batch `batch_id` at `now`. On success its submissions are
    /// done and the docs version goes up by one; on failure they count one
    /// more failed try. Either way the batch timer stops and the end is
    /// recorded.
    pub fn complete_scribe_batch(&mut self, batch_id: i64, success: bool, now: String)
        requires
            old(self).wf(),
            success ==> old(self)@.docs_version < i64::MAX,
            !success ==> forall|i: int| 0 <= i < old(self)@.submissions.len()
                && in_batch(#[trigger] old(self)@.submissions[i], batch_id) ==> old(self)@.submissions[i].retry_count < i32::MAX,
        ensures
            final(self).wf(),
            final(self)@.submissions == old(self)@.submissions.map_values(
                |s: SubmissionView| settled(s, batch_id, success, now@),
            ),
            final(self)@.docs_version == if success { old(self)@.docs_version + 1 } else { old(self)@.docs_version as int },
            final(self)@.batch_started_at is None,
            final(self)@.log == old(self)@.log.push(batch_entry(batch_id, success)),
            final(self)@.status == old(self)@.status,
            final(self)@.failure_reason == old(self)@.failure_reason,
            final(self)@.iteration_count == old(self)@.iteration_count,
            final(self)@.columns == old(self)@.columns,
    {
        let ghost before = self@;
        let ghost nv = now@;
        proof {
            reveal_strlit("processing");
            reveal_strlit("done");
            reveal_strlit("failed");
        }
        let mut i: usize = 0;
        while i < self.submissions.len()
            invariant
                i <= self.submissions.len(),
                nv == now@,
                self.submissions.len() == before.submissions.len(),
                self@.status == before.status,
                self@.failure_reason == before.failure_reason,
                self@.columns == before.columns,
                self@.iteration_count == before.iteration_count,
                self@.docs_version == before.docs_version,
                self@.batch_started_at == before.batch_started_at,
                self@.log == before.log,
                !success ==> forall|k: int| 0 <= k < before.submissions.len()
                    && in_batch(#[trigger] before.submissions[k], batch_id) ==> before.submissions[k].retry_count < i32::MAX,
                forall|j: int| 0 <= j < i ==> (#[trigger] self@.submissions[j]) == settled(before.submissions[j], batch_id, success, nv),
                forall|j: int| i <= j < self.submissions.len() ==> (#[trigger] self@.submissions[j]) == before.submissions[j],
            decreases self.submissions.len() - i,
        {
            let ghost cur = self@;
            let ghost cur_v = self.submissions@;
            assert(cur.submissions[i as int] == self.submissions@[i as int]@);
            assert(cur.submissions[i as int] == before.submissions[i as int]);
            if self.submissions[i].batch_id == Some(batch_id) && str_eq(self.submissions[i].status.as_str(), "processing") {
                if success {
                    self.submissions[i].status = "done".to_owned();
                    self.submissions[i].processed_at = Some(now.clone());
                } else {
                    assert(in_batch(before.submissions[i as int], batch_id));
                    self.submissions[i].status = "failed".to_owned();
                    self.submissions[i].retry_count = self.submissions[i].retry_count + 1;
                }
            }
            proof {
                assert(self@.submissions[i as int] == self.submissions@[i as int]@);
                assert forall|j: int| 0 <= j < self.submissions.len() && j != i implies (#[trigger] self@.submissions[j]) == cur.submissions[j] by {
                    assert(self.submissions@[j] == cur_v[j]);
                    assert(self@.submissions[j] == self.submissions@[j]@);
                    assert(cur.submissions[j] == cur_v[j]@);
                }
            }
            i = i + 1;
        }
        assert(self@.submissions =~= before.submissions.map_values(
            |s: SubmissionView| settled(s, batch_id, success, nv),
        ));
        if success {
            self.docs_version = self.docs_version + 1;
        }
        self.scribe_batch_started_at = None;
        let n = to_signed_decimal(batch_id);
        let head = concat3("Batch ", n.as_str(), " ");
        let detail = if success {
            concat(head.as_str(), "completed")
        } else {
            concat(head.as_str(), "failed")
        };
        let ghost lg = self@.log;
        self.log.push(LogEntry { action: "scribe_batch".to_owned(), detail: Some(detail) });
        assert(self@.log =~= lg.push(batch_entry(batch_id, success)));
        proof {
            let subs = self@.submissions;
            assert forall|a: int, c: int| 0 <= a < c < subs.len() implies (#[trigger] subs[a]).id < (#[trigger] subs[c]).id by {
                assert(subs[a].id == before.submissions[a].id);
                assert(subs[c].id == before.submissions[c].id);
            }
        }
    }

    /// The id for a new batch: one past the highest used.
    pub fn next_scribe_batch_id(&self) -> (r: i64)
        requires
            max_batch(self@.submissions) < i64::MAX,
        ensures
            r == max_batch(self@.submissions) + 1,
    {
        let ghost subs = self@.submissions;
        let mut m: i64 = 0;
        let mut i: usize = 0;
        assert(subs.take(0) =~= Seq::<SubmissionView>::empty());
        while i < self.submissions.len()
            invariant
                i <= self.submissions.len(),
                subs == self@.submissions,
                subs.len() == self.submissions.len(),
                m == max_batch(subs.take(i as int)),
                max_batch(subs) < i64::MAX,
            decreases self.submissions.len() - i,
        {
            assert(subs.take(i as int + 1).drop_last() =~= subs.take(i as int));
            assert(subs[i as int] == self.submissions@[i as int]@);
            assert(subs.take(i as int + 1).last() == subs[i as int]);
            match self.submissions[i].batch_id {
                Some(b) => {
                    if b > m {
                        m = b;
                    }
                },
                None => {},
            }
            i = i + 1;
        }
        assert(subs.take(subs.len() as int) =~= subs);
        m + 1
    }
}

/// The run status machine: every status may stay as it is, no status leads
/// back to a draft, and a delivered run stays delivered.
pub proof fn lemma_status_machine(s: Status, t: Status)
    ensures
        transition_allowed(s, s),
        s != Status::Draft ==> !transition_allowed(s, Status::Draft),
        t != Status::Delivered ==> !transition_allowed(Status::Delivered, t),
        transition_allowed(s, Status::Delivered) ==> s == Status::Done || s == Status::Delivered,
{
}

/// The run's transitions, pair by pair: a draft starts working; a working
/// run pauses, fails, goes to eval or finishes; a paused run resumes or
/// fails; a failed run resumes or pauses; a run in eval finishes, fails,
/// goes back to work or pauses; a finished run is delivered. Every other
/// change of status is refused.
pub proof fn lemma_transition_table(s: Status, t: Status)
    ensures
        transition_allowed(Status::Draft, Status::Working),
        transition_allowed(Status::Working, Status::Paused),
        transition_allowed(Status::Working, Status::Failed),
        transition_allowed(Status::Working, Status::Eval),
        transition_allowed(Status::Working, Status::Done),
        transition_allowed(Status::Paused, Status::Working),
        transition_allowed(Status::Paused, Status::Failed),
        transition_allowed(Status::Failed, Status::Working),
        transition_allowed(Status::Failed, Status::Paused),
        transition_allowed(Status::Eval, Status::Done),
        transition_allowed(Status::Eval, Status::Failed),
        transition_allowed(Status::Eval, Status::Working),
        transition_allowed(Status::Eval, Status::Paused),
        transition_allowed(Status::Done, Status::Delivered),
        s != t && transition_allowed(s, t) ==> {
            ||| s == Status::Draft && t == Status::Working
            ||| s == Status::Working && t != Status::Draft && t != Status::Delivered
            ||| s == Status::Paused && (t == Status::Working || t == Status::Failed)
            ||| s == Status::Failed && (t == Status::Working || t == Status::Paused)
            ||| s == Status::Eval && t != Status::Draft && t != Status::Delivered
            ||| s == Status::Done && t == Status::Delivered
        },
{
}

/// A run that stopped working, by pausing, failing or going to eval, can go
/// back to work, and back again to where it was.
pub proof fn lemma_back_to_work(s: Status)
    requires
        s == Status::Paused || s == Status::Failed || s == Status::Eval,
    ensures
        transition_allowed(Status::Working, s),
        transition_allowed(s, Status::Working),
{
}

/// A learning whose batch fails while it has already failed twice stops
/// waiting for the scribe; one whose batch succeeds is done and stops
/// waiting too.
pub proof fn lemma_scribe_retries(s: SubmissionView, batch_id: i64, now: Seq<char>)
    requires
        in_batch(s, batch_id),
    ensures
        s.retry_count >= 2 && s.retry_count < i32::MAX ==> !waits_for_scribe(settled(s, batch_id, false, now)),
        s.retry_count < 2 ==> waits_for_scribe(settled(s, batch_id, false, now)),
        !waits_for_scribe(settled(s, batch_id, true, now)),
        settled(s, batch_id, true, now).status == "done"@,
{
    reveal_strlit("processing");
    reveal_strlit("done");
    reveal_strlit("failed");
    reveal_strlit("pending");
    assert("done"@ =~= seq!['d', 'o', 'n', 'e']);
    assert("pending"@ =~= seq!['p', 'e', 'n', 'd', 'i', 'n', 'g']);
    assert("failed"@ =~= seq!['f', 'a', 'i', 'l', 'e', 'd']);
    assert("done"@ != "pending"@);
    assert("done"@ != "failed"@);
    assert("failed"@ != "pending"@);
}

} // verus!
