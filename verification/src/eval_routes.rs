//! The eval endpoints shared by the daemon and the run coordinator: their
//! request and response bodies, and the operations they perform on a run's
//! state. The HTTP layer extracts the state and turns results into
//! responses.

use vstd::prelude::*;
use crate::run_state::{Eval, EvalStatus, EvalView, SQLiteState};
use crate::run_workers::{
    finished, last_eval_id, last_eval_where, new_eval, next_id, opt_eval, paused_eval, resumed,
    running, same_but_evals, with_pid, eval_has_id,
};
use crate::run_journal::opt_chars;

verus! {

/// The evals of a run.
#[derive(Debug)]
pub struct EvalsResponse {
    pub evals: Vec<Eval>,
}

/// One eval, if found.
#[derive(Debug)]
pub struct EvalResponse {
    pub eval: Option<Eval>,
}

/// The id of a new eval.
#[derive(Debug)]
pub struct EvalIdResponse {
    pub id: i64,
}

/// How many evals were cancelled.
#[derive(Debug)]
pub struct CancelEvalsResponse {
    pub count: i64,
}

/// A request to start an eval of `branch`.
#[derive(Debug)]
pub struct CreateEvalRequest {
    pub branch: String,
    pub eval_name: Option<String>,
    pub log_file: Option<String>,
}

/// A request to finish an eval.
#[derive(Debug)]
pub struct CompleteEvalRequest {
    pub success: bool,
    pub feedback: String,
}

/// The oldest `limit` evals of the run, in order of id; all of them when
/// `limit` is negative.
pub fn list_evals(state: &SQLiteState, limit: i64) -> (r: Vec<Eval>)
    ensures
        r@.map_values(|e: Eval| e@) == if limit < 0 || limit >= state@.evals.len() {
            state@.evals
        } else {
            state@.evals.take(limit as int)
        },
{
    state.get_evals(limit)
}

/// The eval with id `eval_id`, if any.
pub fn get_eval(state: &SQLiteState, eval_id: i64) -> (r: Option<Eval>)
    ensures
        opt_eval(r) == last_eval_where(state@.evals, |e: EvalView| eval_has_id(e, eval_id)),
{
    state.get_eval(eval_id)
}

/// The newest eval named `eval_name`, if any.
pub fn get_eval_by_name(state: &SQLiteState, eval_name: &str) -> (r: Option<Eval>)
    ensures
        opt_eval(r) == last_eval_where(state@.evals, |e: EvalView| e.eval_name == Some(eval_name@)),
{
    state.get_eval_by_name(eval_name)
}

/// The newest running eval, if any.
pub fn get_running_eval(state: &SQLiteState) -> (r: Option<Eval>)
    ensures
        opt_eval(r) == last_eval_where(state@.evals, |e: EvalView| running(e)),
{
    state.get_running_eval()
}

/// Starts an eval of `branch` at `now` and returns its id.
pub fn start_eval(state: &mut SQLiteState, branch: &str, eval_name: Option<&str>, log_file: Option<&str>, now: &str) -> (r: i64)
    requires
        old(state).records_wf(),
        next_id(last_eval_id(old(state)@.evals)) <= i64::MAX,
    ensures
        final(state).records_wf(),
        same_but_evals(final(state)@, old(state)@),
        r == next_id(last_eval_id(old(state)@.evals)),
        final(state)@.evals == old(state)@.evals.push(
            new_eval(r, branch@, opt_chars(eval_name), opt_chars(log_file), now@),
        ),
{
    state.start_eval(branch, eval_name, log_file, now)
}

/// Finishes the eval `eval_id` at `now`: passed on `success`, else failed,
/// with `feedback`.
pub fn complete_eval(state: &mut SQLiteState, eval_id: i64, success: bool, feedback: &str, now: &str)
    requires
        old(state).records_wf(),
    ensures
        final(state).records_wf(),
        same_but_evals(final(state)@, old(state)@),
        final(state)@.evals == old(state)@.evals.map_values(
            |e: EvalView| if e.id == eval_id {
                finished(e, if success { EvalStatus::Passed } else { EvalStatus::Failed }, feedback@, now@)
            } else {
                e
            },
        ),
{
    state.complete_eval(eval_id, success, feedback, now)
}

/// Fails every running eval with `reason` at `now`; returns how many.
pub fn cancel_running_evals(state: &mut SQLiteState, reason: &str, now: &str) -> (r: i64)
    requires
        old(state).records_wf(),
    ensures
        final(state).records_wf(),
        same_but_evals(final(state)@, old(state)@),
        r == old(state)@.evals.filter(|e: EvalView| running(e)).len() as i64,
        final(state)@.evals == old(state)@.evals.map_values(
            |e: EvalView| if running(e) {
                finished(e, EvalStatus::Failed, reason@, now@)
            } else {
                e
            },
        ),
{
    state.cancel_running_evals(reason, now)
}

/// Records the process of the eval `eval_id`.
pub fn set_eval_pid(state: &mut SQLiteState, eval_id: i64, pid: u32)
    requires
        old(state).records_wf(),
    ensures
        final(state).records_wf(),
        final(state)@ == (crate::run_state::RunView {
            evals: old(state)@.evals.map_values(|e: EvalView| with_pid(e, eval_id, pid)),
            ..old(state)@
        }),
{
    state.set_eval_pid(eval_id, pid)
}

/// Whether some eval failed because the run was paused.
pub fn has_paused_eval(state: &SQLiteState) -> (r: bool)
    ensures
        r == exists|k: int| 0 <= k < state@.evals.len() && paused_eval(#[trigger] state@.evals[k]),
{
    state.has_paused_eval()
}

/// Marks the evals that failed because the run was paused as resumed.
pub fn clear_paused_evals(state: &mut SQLiteState)
    requires
        old(state).records_wf(),
    ensures
        final(state).records_wf(),
        final(state)@ == (crate::run_state::RunView {
            evals: old(state)@.evals.map_values(|e: EvalView| resumed(e)),
            ..old(state)@
        }),
{
    state.clear_paused_evals()
}

} // verus!
