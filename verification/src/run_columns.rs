//! The columns of a run record besides its status, failure, iteration and
//! scribe bookkeeping: what the run was asked, where its project lives, how
//! it is supervised and timed, which runners its workers use, what it was
//! dispatched from and how far its delivery went.

use vstd::prelude::*;
use crate::run_journal::{opt_chars, own_opt};
use crate::run_record::{status_entry, transition_allowed, RecordView, RunRecord};
use crate::run_state::{clone_opt, opt_view, LogEntry};
use crate::state_types::{DeliveryStatus, MergeState, StateError, Status};
use crate::text::{clone_strings, str_eq, views};

verus! {

/// The columns of a run record.
#[derive(Debug)]
pub struct RunColumns {
    pub created_at: String,
    pub updated_at: String,
    pub request: Option<String>,
    pub waiting_reason: Option<String>,
    pub project_path: Option<String>,
    pub remote_url: Option<String>,
    pub branch: Option<String>,
    pub human_in_the_loop: bool,
    pub summary: Option<String>,
    pub worker_scale: Option<String>,
    pub time_limit_minutes: Option<i64>,
    pub started_at: Option<String>,
    pub last_time_notification_pct: Option<i64>,
    /// `sender` or `all`.
    pub pause_mode: String,
    pub is_test: bool,
    pub default_runner: Option<String>,
    /// The runner of each worker that has its own, by worker name.
    pub worker_runners: Option<Vec<(String, String)>>,
    pub starting_point: Option<String>,
    pub project_id: Option<i64>,
    pub project_name: Option<String>,
    pub route_id: Option<i64>,
    /// The board tasks the run was dispatched from.
    pub source_task_ids: Option<Vec<String>>,
    pub board_snapshot: Option<String>,
    pub branch_off_commit: Option<String>,
    pub delivery_status: DeliveryStatus,
    pub delivery_branch: Option<String>,
    pub pr_url: Option<String>,
    pub pr_number: Option<i64>,
    pub merged_at: Option<String>,
    pub abandoned_at: Option<String>,
    pub staleness_commits: u32,
    pub merge_state: MergeState,
    pub scaling_check_requested: i64,
}

/// The contents of the columns.
pub struct ColumnsView {
    pub created_at: Seq<char>,
    pub updated_at: Seq<char>,
    pub request: Option<Seq<char>>,
    pub waiting_reason: Option<Seq<char>>,
    pub project_path: Option<Seq<char>>,
    pub remote_url: Option<Seq<char>>,
    pub branch: Option<Seq<char>>,
    pub human_in_the_loop: bool,
    pub summary: Option<Seq<char>>,
    pub worker_scale: Option<Seq<char>>,
    pub time_limit_minutes: Option<i64>,
    pub started_at: Option<Seq<char>>,
    pub last_time_notification_pct: Option<i64>,
    pub pause_mode: Seq<char>,
    pub is_test: bool,
    pub default_runner: Option<Seq<char>>,
    pub worker_runners: Option<Seq<(Seq<char>, Seq<char>)>>,
    pub starting_point: Option<Seq<char>>,
    pub project_id: Option<i64>,
    pub project_name: Option<Seq<char>>,
    pub route_id: Option<i64>,
    pub source_task_ids: Option<Seq<Seq<char>>>,
    pub board_snapshot: Option<Seq<char>>,
    pub branch_off_commit: Option<Seq<char>>,
    pub delivery_status: DeliveryStatus,
    pub delivery_branch: Option<Seq<char>>,
    pub pr_url: Option<Seq<char>>,
    pub pr_number: Option<i64>,
    pub merged_at: Option<Seq<char>>,
    pub abandoned_at: Option<Seq<char>>,
    pub staleness_commits: u32,
    pub merge_state: MergeState,
    pub scaling_check_requested: i64,
}

/// The contents of a list of name pairs.
pub open spec fn pair_views(ps: Seq<(String, String)>) -> Seq<(Seq<char>, Seq<char>)> {
    ps.map_values(|p: (String, String)| (p.0@, p.1@))
}

/// The contents of an optional list of name pairs.
pub open spec fn opt_pairs(o: Option<Vec<(String, String)>>) -> Option<Seq<(Seq<char>, Seq<char>)>> {
    match o {
        Some(v) => Some(pair_views(v@)),
        None => None,
    }
}

/// The contents of an optional list of names.
pub open spec fn opt_names(o: Option<Vec<String>>) -> Option<Seq<Seq<char>>> {
    match o {
        Some(v) => Some(views(v@)),
        None => None,
    }
}

impl View for RunColumns {
    type V = ColumnsView;

    open spec fn view(&self) -> ColumnsView {
        ColumnsView {
            created_at: self.created_at@,
            updated_at: self.updated_at@,
            request: opt_view(self.request),
            waiting_reason: opt_view(self.waiting_reason),
            project_path: opt_view(self.project_path),
            remote_url: opt_view(self.remote_url),
            branch: opt_view(self.branch),
            human_in_the_loop: self.human_in_the_loop,
            summary: opt_view(self.summary),
            worker_scale: opt_view(self.worker_scale),
            time_limit_minutes: self.time_limit_minutes,
            started_at: opt_view(self.started_at),
            last_time_notification_pct: self.last_time_notification_pct,
            pause_mode: self.pause_mode@,
            is_test: self.is_test,
            default_runner: opt_view(self.default_runner),
            worker_runners: opt_pairs(self.worker_runners),
            starting_point: opt_view(self.starting_point),
            project_id: self.project_id,
            project_name: opt_view(self.project_name),
            route_id: self.route_id,
            source_task_ids: opt_names(self.source_task_ids),
            board_snapshot: opt_view(self.board_snapshot),
            branch_off_commit: opt_view(self.branch_off_commit),
            delivery_status: self.delivery_status,
            delivery_branch: opt_view(self.delivery_branch),
            pr_url: opt_view(self.pr_url),
            pr_number: self.pr_number,
            merged_at: opt_view(self.merged_at),
            abandoned_at: opt_view(self.abandoned_at),
            staleness_commits: self.staleness_commits,
            merge_state: self.merge_state,
            scaling_check_requested: self.scaling_check_requested,
        }
    }
}

/// The columns as a new run writes them at `now`: each at its default.
pub open spec fn default_columns(now: Seq<char>) -> ColumnsView {
    ColumnsView {
        created_at: now,
        updated_at: now,
        request: None,
        waiting_reason: None,
        project_path: None,
        remote_url: None,
        branch: None,
        human_in_the_loop: true,
        summary: None,
        worker_scale: None,
        time_limit_minutes: None,
        started_at: None,
        last_time_notification_pct: None,
        pause_mode: "sender"@,
        is_test: false,
        default_runner: None,
        worker_runners: None,
        starting_point: None,
        project_id: None,
        project_name: None,
        route_id: None,
        source_task_ids: None,
        board_snapshot: None,
        branch_off_commit: None,
        delivery_status: DeliveryStatus::Pending,
        delivery_branch: None,
        pr_url: None,
        pr_number: None,
        merged_at: None,
        abandoned_at: None,
        staleness_commits: 0,
        merge_state: MergeState::Unknown,
        scaling_check_requested: 0,
    }
}

/// The columns with their update time set to `now`.
pub open spec fn touched(c: ColumnsView, now: Seq<char>) -> ColumnsView {
    ColumnsView { updated_at: now, ..c }
}

/// Columns at their defaults, written at `now`.
pub fn default_run_columns(now: &str) -> (r: RunColumns)
    ensures
        r@ == default_columns(now@),
{
    RunColumns {
        created_at: now.to_owned(),
        updated_at: now.to_owned(),
        request: None,
        waiting_reason: None,
        project_path: None,
        remote_url: None,
        branch: None,
        human_in_the_loop: true,
        summary: None,
        worker_scale: None,
        time_limit_minutes: None,
        started_at: None,
        last_time_notification_pct: None,
        pause_mode: "sender".to_owned(),
        is_test: false,
        default_runner: None,
        worker_runners: None,
        starting_point: None,
        project_id: None,
        project_name: None,
        route_id: None,
        source_task_ids: None,
        board_snapshot: None,
        branch_off_commit: None,
        delivery_status: DeliveryStatus::Pending,
        delivery_branch: None,
        pr_url: None,
        pr_number: None,
        merged_at: None,
        abandoned_at: None,
        staleness_commits: 0,
        merge_state: MergeState::Unknown,
        scaling_check_requested: 0,
    }
}


/// A message the caller posts on a project's chat.
#[derive(Debug)]
pub struct ProjectNotice {
    pub project_id: i64,
    pub route_id: i64,
    pub text: String,
}

/// Whether position `k` of `ps` holds the name `key`, first among them.
pub open spec fn first_key(ps: Seq<(Seq<char>, Seq<char>)>, key: Seq<char>, k: int) -> bool {
    &&& 0 <= k < ps.len()
    &&& ps[k].0 == key
    &&& forall|q: int| 0 <= q < k ==> (#[trigger] ps[q]).0 != key
}

/// The runner of `worker`: its own, else the run's default, else `local`.
pub open spec fn runner_of(c: ColumnsView, worker: Seq<char>) -> Seq<char> {
    if c.worker_runners is Some && exists|k: int| first_key(c.worker_runners->0, worker, k) {
        c.worker_runners->0[choose|k: int| first_key(c.worker_runners->0, worker, k)].1
    } else {
        match c.default_runner {
            Some(d) => d,
            None => "local"@,
        }
    }
}

/// A copy of a list of name pairs.
pub fn clone_pairs(v: &[(String, String)]) -> (r: Vec<(String, String)>)
    ensures
        pair_views(r@) == pair_views(v@),
{
    let mut out: Vec<(String, String)> = Vec::new();
    let mut i: usize = 0;
    while i < v.len()
        invariant
            i <= v.len(),
            pair_views(out@) == pair_views(v@).take(i as int),
        decreases v.len() - i,
    {
        let ghost bo = out@;
        let a = v[i].0.clone();
        let b = v[i].1.clone();
        assert(a@ == v@[i as int].0@ && b@ == v@[i as int].1@);
        out.push((a, b));
        assert(pair_views(out@) =~= pair_views(bo).push((v@[i as int].0@, v@[i as int].1@)));
        assert(pair_views(out@) =~= pair_views(v@).take(i as int + 1));
        i = i + 1;
    }
    assert(pair_views(v@).take(i as int) =~= pair_views(v@));
    out
}

/// Position of the first pair named `key`, if any.
fn find_pair(v: &[(String, String)], key: &str) -> (r: Option<usize>)
    ensures
        match r {
            Some(k) => first_key(pair_views(v@), key@, k as int),
            None => forall|k: int| 0 <= k < v@.len() ==> (#[trigger] pair_views(v@)[k]).0 != key@,
        },
{
    let mut i: usize = 0;
    while i < v.len()
        invariant
            i <= v.len(),
            forall|q: int| 0 <= q < i ==> (#[trigger] pair_views(v@)[q]).0 != key@,
        decreases v.len() - i,
    {
        assert(pair_views(v@)[i as int].0 == v@[i as int].0@);
        if str_eq(v[i].0.as_str(), key) {
            return Some(i);
        }
        i = i + 1;
    }
    None
}

/// What the workers are told when the user joins (`enabled`) or leaves.
pub open spec fn mode_notice(enabled: bool) -> Seq<char> {
    if enabled {
        "The user is now available. Feel free to message them if needed."@
    } else {
        "The user is currently unavailable for messages. Do not attempt to contact them - do the work to the best of your abilities."@
    }
}

impl RunRecord {
    /// When the run was created.
    pub fn get_created_at(&self) -> (r: Option<String>)
        ensures
            opt_view(r) == Some(self@.columns.created_at),
    {
        Some(self.columns.created_at.clone())
    }

    /// When the run last changed.
    pub fn get_updated_at(&self) -> (r: Option<String>)
        ensures
            opt_view(r) == Some(self@.columns.updated_at),
    {
        Some(self.columns.updated_at.clone())
    }

    /// Forgets the project path, at `now`.
    pub fn clear_project_path(&mut self, now: &str)
        ensures
            final(self)@ == (RecordView {
                columns: ColumnsView { project_path: None, ..touched(old(self)@.columns, now@) },
                ..old(self)@
            }),
    {
        self.columns.project_path = None;
        self.columns.updated_at = now.to_owned();
    }

    /// The route the run belongs to; `NotFound` when none is set.
    pub fn get_route_id(&self) -> (r: Result<i64, StateError>)
        ensures
            match self@.columns.route_id {
                Some(id) => r == Ok::<i64, StateError>(id),
                None => r matches Err(StateError::NotFound(m)) && m@ == "route_id not set"@,
            },
    {
        match self.columns.route_id {
            Some(id) => Ok(id),
            None => Err(StateError::NotFound("route_id not set".to_owned())),
        }
    }

    /// Keeps the generated summary, at `now`; the generation is recorded.
    pub fn set_summary(&mut self, summary: &str, now: &str)
        ensures
            final(self)@ == (RecordView {
                columns: ColumnsView { summary: Some(summary@), ..touched(old(self)@.columns, now@) },
                log: old(self)@.log.push(("summary_generated"@, None)),
                ..old(self)@
            }),
    {
        self.columns.summary = Some(summary.to_owned());
        self.columns.updated_at = now.to_owned();
        let ghost lg = self@.log;
        self.log.push(LogEntry { action: "summary_generated".to_owned(), detail: None });
        assert(self@.log =~= lg.push(("summary_generated"@, None)));
    }

    /// Whether the user takes part in the run.
    pub fn get_human_in_the_loop(&self) -> (r: bool)
        ensures
            r == self@.columns.human_in_the_loop,
    {
        self.columns.human_in_the_loop
    }

    /// Says whether the user takes part, at `now`. A change is recorded, and
    /// when the run knows its project and route it comes back as the notice
    /// to post on the project's chat; setting the current value changes
    /// nothing.
    pub fn set_human_in_the_loop(&mut self, enabled: bool, now: &str) -> (r: Option<ProjectNotice>)
        ensures
            old(self)@.columns.human_in_the_loop == enabled ==> r is None && final(self)@ == old(self)@,
            old(self)@.columns.human_in_the_loop != enabled ==> {
                &&& final(self)@ == (RecordView {
                    columns: ColumnsView { human_in_the_loop: enabled, ..touched(old(self)@.columns, now@) },
                    log: old(self)@.log.push(("mode_change"@, Some(if enabled { "hitl"@ } else { "yolo"@ }))),
                    ..old(self)@
                })
                &&& match (old(self)@.columns.project_id, old(self)@.columns.route_id) {
                    (Some(p), Some(q)) => r matches Some(n) && n.project_id == p && n.route_id == q
                        && n.text@ == mode_notice(enabled),
                    _ => r is None,
                }
            },
    {
        if self.columns.human_in_the_loop == enabled {
            return None;
        }
        self.columns.human_in_the_loop = enabled;
        self.columns.updated_at = now.to_owned();
        let mode = if enabled { "hitl" } else { "yolo" };
        let ghost lg = self@.log;
        self.log.push(LogEntry { action: "mode_change".to_owned(), detail: Some(mode.to_owned()) });
        assert(self@.log =~= lg.push(("mode_change"@, Some(if enabled { "hitl"@ } else { "yolo"@ }))));
        match (self.columns.project_id, self.columns.route_id) {
            (Some(p), Some(q)) => {
                let text = if enabled {
                    "The user is now available. Feel free to message them if needed."
                } else {
                    "The user is currently unavailable for messages. Do not attempt to contact them - do the work to the best of your abilities."
                };
                Some(ProjectNotice { project_id: p, route_id: q, text: text.to_owned() })
            },
            _ => None,
        }
    }

    /// Starts the run's clock at `timestamp`, or at `now` when none is given.
    pub fn set_started_at(&mut self, timestamp: Option<&str>, now: &str)
        ensures
            final(self)@ == (RecordView {
                columns: ColumnsView {
                    started_at: Some(match timestamp {
                        Some(t) => t@,
                        None => now@,
                    }),
                    ..touched(old(self)@.columns, now@)
                },
                ..old(self)@
            }),
    {
        self.columns.started_at = Some(match timestamp {
            Some(t) => t.to_owned(),
            None => now.to_owned(),
        });
        self.columns.updated_at = now.to_owned();
    }

    /// Stops the run's clock and forgets the last time notice, at `now`.
    pub fn clear_time_tracking(&mut self, now: &str)
        ensures
            final(self)@ == (RecordView {
                columns: ColumnsView {
                    started_at: None,
                    last_time_notification_pct: None,
                    ..touched(old(self)@.columns, now@)
                },
                ..old(self)@
            }),
    {
        self.columns.started_at = None;
        self.columns.last_time_notification_pct = None;
        self.columns.updated_at = now.to_owned();
    }

    /// Whether the run's time budget is spent, `elapsed_seconds` after its
    /// clock started. Without a budget or a running clock it is not;
    /// `elapsed_seconds` is `None` when the start time could not be read,
    /// which is an error.
    pub fn is_time_expired(&self, elapsed_seconds: Option<i64>) -> (r: Result<bool, StateError>)
        ensures
            match (self@.columns.time_limit_minutes, self@.columns.started_at) {
                (Some(limit), Some(_)) => match elapsed_seconds {
                    Some(e) => r == Ok::<bool, StateError>(e >= limit * 60),
                    None => r matches Err(StateError::InvalidState(m)) && m@ == "Invalid started_at timestamp"@,
                },
                _ => r == Ok::<bool, StateError>(false),
            },
    {
        match (self.columns.time_limit_minutes, &self.columns.started_at) {
            (Some(limit), Some(_)) => match elapsed_seconds {
                Some(e) => Ok((e as i128) >= (limit as i128) * 60),
                None => Err(StateError::InvalidState("Invalid started_at timestamp".to_owned())),
            },
            _ => Ok(false),
        }
    }

    /// How a pause reaches the workers: `sender` or `all`.
    pub fn get_pause_mode(&self) -> (r: String)
        ensures
            r@ == self@.columns.pause_mode,
    {
        self.columns.pause_mode.clone()
    }

    /// Sets how a pause reaches the workers, at `now`.
    pub fn set_pause_mode(&mut self, mode: &str, now: &str)
        ensures
            final(self)@ == (RecordView {
                columns: ColumnsView { pause_mode: mode@, ..touched(old(self)@.columns, now@) },
                ..old(self)@
            }),
    {
        self.columns.pause_mode = mode.to_owned();
        self.columns.updated_at = now.to_owned();
    }

    /// The runner of each worker that has its own, if recorded.
    pub fn get_worker_runners(&self) -> (r: Option<Vec<(String, String)>>)
        ensures
            opt_pairs(r) == self@.columns.worker_runners,
    {
        match &self.columns.worker_runners {
            Some(v) => Some(clone_pairs(v.as_slice())),
            None => None,
        }
    }

    /// Records or clears the runners of the workers, at `now`.
    pub fn set_worker_runners(&mut self, runners: Option<&[(String, String)]>, now: &str)
        ensures
            final(self)@ == (RecordView {
                columns: ColumnsView {
                    worker_runners: match runners {
                        Some(v) => Some(pair_views(v@)),
                        None => None,
                    },
                    ..touched(old(self)@.columns, now@)
                },
                ..old(self)@
            }),
    {
        self.columns.worker_runners = match runners {
            Some(v) => Some(clone_pairs(v)),
            None => None,
        };
        self.columns.updated_at = now.to_owned();
    }

    /// The runner of `worker_name`: its own, else the run's default, else
    /// `local`.
    pub fn get_runner_for_worker(&self, worker_name: &str) -> (r: String)
        ensures
            r@ == runner_of(self@.columns, worker_name@),
    {
        if let Some(v) = &self.columns.worker_runners {
            let found = find_pair(v.as_slice(), worker_name);
            proof {
                let ps = pair_views(v@);
                assert(self@.columns.worker_runners == Some(ps));
                match found {
                    Some(k) => {
                        assert(first_key(ps, worker_name@, k as int));
                        assert forall|c: int| first_key(ps, worker_name@, c) implies c == k by {
                            if c < k {
                                assert(ps[c].0 != worker_name@);
                            } else if c > k {
                                assert(ps[k as int].0 != worker_name@);
                            }
                        }
                    },
                    None => {
                        assert forall|c: int| !first_key(ps, worker_name@, c) by {
                            if 0 <= c < ps.len() {
                                assert(ps[c].0 != worker_name@);
                            }
                        }
                    },
                }
            }
            if let Some(k) = found {
                let out = v[k].1.clone();
                proof {
                    let ps = pair_views(v@);
                    assert(ps[k as int].1 == v@[k as int].1@);
                    assert(first_key(ps, worker_name@, k as int));
                    let c = choose|c: int| first_key(ps, worker_name@, c);
                    assert(first_key(ps, worker_name@, c));
                    if c < k {
                        assert(ps[c].0 != worker_name@);
                    } else if c > k {
                        assert(ps[k as int].0 != worker_name@);
                    }
                    assert(out@ == ps[k as int].1);
                    assert(self@.columns.worker_runners->0 == ps);
                    assert(exists|q: int| first_key(self@.columns.worker_runners->0, worker_name@, q));
                    assert(runner_of(self@.columns, worker_name@) == ps[c].1);
                }
                return out;
            }
        }
        match &self.columns.default_runner {
            Some(d) => d.clone(),
            None => "local".to_owned(),
        }
    }

    /// The board tasks the run was dispatched from, if recorded.
    pub fn get_source_task_ids(&self) -> (r: Option<Vec<String>>)
        ensures
            opt_names(r) == self@.columns.source_task_ids,
    {
        match &self.columns.source_task_ids {
            Some(v) => Some(clone_strings(v.as_slice())),
            None => None,
        }
    }

    /// Records or clears the board tasks the run was dispatched from, at
    /// `now`.
    pub fn set_source_task_ids(&mut self, task_ids: Option<&[String]>, now: &str)
        ensures
            final(self)@ == (RecordView {
                columns: ColumnsView {
                    source_task_ids: match task_ids {
                        Some(v) => Some(views(v@)),
                        None => None,
                    },
                    ..touched(old(self)@.columns, now@)
                },
                ..old(self)@
            }),
    {
        self.columns.source_task_ids = match task_ids {
            Some(v) => Some(clone_strings(v)),
            None => None,
        };
        self.columns.updated_at = now.to_owned();
    }

    /// Records when the run was merged: at `timestamp`, or at `now`.
    pub fn set_merged_at(&mut self, timestamp: Option<&str>, now: &str)
        ensures
            final(self)@ == (RecordView {
                columns: ColumnsView {
                    merged_at: Some(match timestamp {
                        Some(t) => t@,
                        None => now@,
                    }),
                    ..touched(old(self)@.columns, now@)
                },
                ..old(self)@
            }),
    {
        self.columns.merged_at = Some(match timestamp {
            Some(t) => t.to_owned(),
            None => now.to_owned(),
        });
        self.columns.updated_at = now.to_owned();
    }

    /// Records when the run was abandoned: at `timestamp`, or at `now`.
    pub fn set_abandoned_at(&mut self, timestamp: Option<&str>, now: &str)
        ensures
            final(self)@ == (RecordView {
                columns: ColumnsView {
                    abandoned_at: Some(match timestamp {
                        Some(t) => t@,
                        None => now@,
                    }),
                    ..touched(old(self)@.columns, now@)
                },
                ..old(self)@
            }),
    {
        self.columns.abandoned_at = Some(match timestamp {
            Some(t) => t.to_owned(),
            None => now.to_owned(),
        });
        self.columns.updated_at = now.to_owned();
    }

    /// Marks the run merged at `now` and moves it to delivered, which is
    /// recorded. When the run may not be delivered from its status, the
    /// delivery columns are still written and the transition error comes
    /// back.
    pub fn mark_delivered(&mut self, now: &str) -> (r: Result<(), StateError>)
        requires
            old(self).wf(),
        ensures
            final(self).wf(),
            r is Ok <==> transition_allowed(old(self)@.status, Status::Delivered),
            ({
                let cols = ColumnsView {
                    delivery_status: DeliveryStatus::Merged,
                    merged_at: Some(now@),
                    ..touched(old(self)@.columns, now@)
                };
                &&& r is Err ==> final(self)@ == (RecordView { columns: cols, ..old(self)@ })
                &&& r is Ok ==> final(self)@ == (RecordView {
                    status: Status::Delivered,
                    columns: cols,
                    log: (if old(self)@.status == Status::Delivered {
                        old(self)@.log
                    } else {
                        old(self)@.log.push(status_entry(Status::Delivered))
                    }).push(("delivered"@, None)),
                    ..old(self)@
                })
            }),
    {
        self.set_delivery_status(DeliveryStatus::Merged, now);
        self.set_merged_at(None, now);
        let r = self.set_status(Status::Delivered, now);
        if r.is_err() {
            return r;
        }
        let ghost lg = self@.log;
        self.log.push(LogEntry { action: "delivered".to_owned(), detail: None });
        assert(self@.log =~= lg.push(("delivered"@, None)));
        Ok(())
    }

    /// Marks the run abandoned at `now`; the abandonment is recorded.
    pub fn mark_abandoned(&mut self, now: &str)
        ensures
            final(self)@ == (RecordView {
                columns: ColumnsView {
                    delivery_status: DeliveryStatus::Abandoned,
                    abandoned_at: Some(now@),
                    ..touched(old(self)@.columns, now@)
                },
                log: old(self)@.log.push(("abandoned"@, None)),
                ..old(self)@
            }),
    {
        self.set_delivery_status(DeliveryStatus::Abandoned, now);
        self.set_abandoned_at(None, now);
        let ghost lg = self@.log;
        self.log.push(LogEntry { action: "abandoned".to_owned(), detail: None });
        assert(self@.log =~= lg.push(("abandoned"@, None)));
    }

    /// Asks for a scaling check on the next poll.
    pub fn request_scaling_check(&mut self)
        requires
            old(self)@.columns.scaling_check_requested < i64::MAX,
        ensures
            final(self)@ == (RecordView {
                columns: ColumnsView {
                    scaling_check_requested: (old(self)@.columns.scaling_check_requested + 1) as i64,
                    ..old(self)@.columns
                },
                ..old(self)@
            }),
    {
        self.columns.scaling_check_requested = self.columns.scaling_check_requested + 1;
    }

    /// Whether a scaling check was asked for since the last time; the
    /// requests are consumed.
    pub fn consume_scaling_check(&mut self) -> (r: bool)
        ensures
            r == (old(self)@.columns.scaling_check_requested > 0),
            final(self)@ == (RecordView {
                columns: ColumnsView {
                    scaling_check_requested: if r { 0 } else { old(self)@.columns.scaling_check_requested },
                    ..old(self)@.columns
                },
                ..old(self)@
            }),
    {
        let pending = self.columns.scaling_check_requested > 0;
        if pending {
            self.columns.scaling_check_requested = 0;
        }
        pending
    }

    /// What the run was asked to do, if set.
    pub fn get_request(&self) -> (r: Option<String>)
        ensures
            opt_view(r) == self@.columns.request,
    {
        clone_opt(&self.columns.request)
    }

    /// Sets or clears the request, at `now`.
    pub fn set_request(&mut self, request: Option<&str>, now: &str)
        ensures
            final(self)@ == (RecordView {
                columns: ColumnsView { request: opt_chars(request), ..touched(old(self)@.columns, now@) },
                ..old(self)@
            }),
    {
        self.columns.request = own_opt(request);
        self.columns.updated_at = now.to_owned();
    }

    /// Why the run waits, if it does.
    pub fn get_waiting_reason(&self) -> (r: Option<String>)
        ensures
            opt_view(r) == self@.columns.waiting_reason,
    {
        clone_opt(&self.columns.waiting_reason)
    }

    /// Sets or clears why the run waits, at `now`.
    pub fn set_waiting_reason(&mut self, reason: Option<&str>, now: &str)
        ensures
            final(self)@ == (RecordView {
                columns: ColumnsView { waiting_reason: opt_chars(reason), ..touched(old(self)@.columns, now@) },
                ..old(self)@
            }),
    {
        self.columns.waiting_reason = own_opt(reason);
        self.columns.updated_at = now.to_owned();
    }

    /// The project the run works in, if set.
    pub fn get_project_path(&self) -> (r: Option<String>)
        ensures
            opt_view(r) == self@.columns.project_path,
    {
        clone_opt(&self.columns.project_path)
    }

    /// Sets the project path, at `now`.
    pub fn set_project_path(&mut self, path: &str, now: &str)
        ensures
            final(self)@ == (RecordView {
                columns: ColumnsView { project_path: Some(path@), ..touched(old(self)@.columns, now@) },
                ..old(self)@
            }),
    {
        self.columns.project_path = Some(path.to_owned());
        self.columns.updated_at = now.to_owned();
    }

    /// The remote of the project's repository, if any.
    pub fn get_remote_url(&self) -> (r: Option<String>)
        ensures
            opt_view(r) == self@.columns.remote_url,
    {
        clone_opt(&self.columns.remote_url)
    }

    /// Sets or clears the remote, at `now`.
    pub fn set_remote_url(&mut self, url: Option<&str>, now: &str)
        ensures
            final(self)@ == (RecordView {
                columns: ColumnsView { remote_url: opt_chars(url), ..touched(old(self)@.columns, now@) },
                ..old(self)@
            }),
    {
        self.columns.remote_url = own_opt(url);
        self.columns.updated_at = now.to_owned();
    }

    /// The branch the run works on, if set.
    pub fn get_branch(&self) -> (r: Option<String>)
        ensures
            opt_view(r) == self@.columns.branch,
    {
        clone_opt(&self.columns.branch)
    }

    /// Sets or clears the branch, at `now`.
    pub fn set_branch(&mut self, branch: Option<&str>, now: &str)
        ensures
            final(self)@ == (RecordView {
                columns: ColumnsView { branch: opt_chars(branch), ..touched(old(self)@.columns, now@) },
                ..old(self)@
            }),
    {
        self.columns.branch = own_opt(branch);
        self.columns.updated_at = now.to_owned();
    }

    /// The project the run belongs to, if set.
    pub fn get_project_id(&self) -> (r: Option<i64>)
        ensures
            r == self@.columns.project_id,
    {
        self.columns.project_id
    }

    /// Sets the project, at `now`.
    pub fn set_project_id(&mut self, project_id: i64, now: &str)
        ensures
            final(self)@ == (RecordView {
                columns: ColumnsView { project_id: Some(project_id), ..touched(old(self)@.columns, now@) },
                ..old(self)@
            }),
    {
        self.columns.project_id = Some(project_id);
        self.columns.updated_at = now.to_owned();
    }

    /// Sets the route, at `now`.
    pub fn set_route_id(&mut self, route_id: i64, now: &str)
        ensures
            final(self)@ == (RecordView {
                columns: ColumnsView { route_id: Some(route_id), ..touched(old(self)@.columns, now@) },
                ..old(self)@
            }),
    {
        self.columns.route_id = Some(route_id);
        self.columns.updated_at = now.to_owned();
    }

    /// The project's name, if set.
    pub fn get_project_name(&self) -> (r: Option<String>)
        ensures
            opt_view(r) == self@.columns.project_name,
    {
        clone_opt(&self.columns.project_name)
    }

    /// Sets the project's name, at `now`.
    pub fn set_project_name(&mut self, project_name: &str, now: &str)
        ensures
            final(self)@ == (RecordView {
                columns: ColumnsView { project_name: Some(project_name@), ..touched(old(self)@.columns, now@) },
                ..old(self)@
            }),
    {
        self.columns.project_name = Some(project_name.to_owned());
        self.columns.updated_at = now.to_owned();
    }

    /// The generated summary of the run, if any.
    pub fn get_summary(&self) -> (r: Option<String>)
        ensures
            opt_view(r) == self@.columns.summary,
    {
        clone_opt(&self.columns.summary)
    }

    /// How many workers the run is scaled to, as set.
    pub fn get_worker_scale(&self) -> (r: Option<String>)
        ensures
            opt_view(r) == self@.columns.worker_scale,
    {
        clone_opt(&self.columns.worker_scale)
    }

    /// Sets the worker scale, at `now`.
    pub fn set_worker_scale(&mut self, scale: &str, now: &str)
        ensures
            final(self)@ == (RecordView {
                columns: ColumnsView { worker_scale: Some(scale@), ..touched(old(self)@.columns, now@) },
                ..old(self)@
            }),
    {
        self.columns.worker_scale = Some(scale.to_owned());
        self.columns.updated_at = now.to_owned();
    }

    /// The run's time budget in minutes, if any.
    pub fn get_time_limit_minutes(&self) -> (r: Option<i64>)
        ensures
            r == self@.columns.time_limit_minutes,
    {
        self.columns.time_limit_minutes
    }

    /// Sets or clears the time budget, at `now`.
    pub fn set_time_limit_minutes(&mut self, minutes: Option<i64>, now: &str)
        ensures
            final(self)@ == (RecordView {
                columns: ColumnsView { time_limit_minutes: minutes, ..touched(old(self)@.columns, now@) },
                ..old(self)@
            }),
    {
        self.columns.time_limit_minutes = minutes;
        self.columns.updated_at = now.to_owned();
    }

    /// When the run's clock started, if it did.
    pub fn get_started_at(&self) -> (r: Option<String>)
        ensures
            opt_view(r) == self@.columns.started_at,
    {
        clone_opt(&self.columns.started_at)
    }

    /// The share of the time budget at which workers were last told, in percent.
    pub fn get_last_time_notification_pct(&self) -> (r: Option<i64>)
        ensures
            r == self@.columns.last_time_notification_pct,
    {
        self.columns.last_time_notification_pct
    }

    /// Records that workers were told at `pct` percent, at `now`.
    pub fn set_last_time_notification_pct(&mut self, pct: i64, now: &str)
        ensures
            final(self)@ == (RecordView {
                columns: ColumnsView { last_time_notification_pct: Some(pct), ..touched(old(self)@.columns, now@) },
                ..old(self)@
            }),
    {
        self.columns.last_time_notification_pct = Some(pct);
        self.columns.updated_at = now.to_owned();
    }

    /// Whether the run is a test run, cleaned up after its eval.
    pub fn is_test_run(&self) -> (r: bool)
        ensures
            r == self@.columns.is_test,
    {
        self.columns.is_test
    }

    /// Marks the run as a test run or not, at `now`.
    pub fn set_is_test(&mut self, is_test: bool, now: &str)
        ensures
            final(self)@ == (RecordView {
                columns: ColumnsView { is_test: is_test, ..touched(old(self)@.columns, now@) },
                ..old(self)@
            }),
    {
        self.columns.is_test = is_test;
        self.columns.updated_at = now.to_owned();
    }

    /// The runner of workers without their own, if set.
    pub fn get_default_runner(&self) -> (r: Option<String>)
        ensures
            opt_view(r) == self@.columns.default_runner,
    {
        clone_opt(&self.columns.default_runner)
    }

    /// Sets or clears the default runner, at `now`.
    pub fn set_default_runner(&mut self, runner: Option<&str>, now: &str)
        ensures
            final(self)@ == (RecordView {
                columns: ColumnsView { default_runner: opt_chars(runner), ..touched(old(self)@.columns, now@) },
                ..old(self)@
            }),
    {
        self.columns.default_runner = own_opt(runner);
        self.columns.updated_at = now.to_owned();
    }

    /// Where the run started from, as stored, if set.
    pub fn get_starting_point(&self) -> (r: Option<String>)
        ensures
            opt_view(r) == self@.columns.starting_point,
    {
        clone_opt(&self.columns.starting_point)
    }

    /// Sets or clears the starting point, at `now`.
    pub fn set_starting_point(&mut self, starting_point: Option<&str>, now: &str)
        ensures
            final(self)@ == (RecordView {
                columns: ColumnsView { starting_point: opt_chars(starting_point), ..touched(old(self)@.columns, now@) },
                ..old(self)@
            }),
    {
        self.columns.starting_point = own_opt(starting_point);
        self.columns.updated_at = now.to_owned();
    }

    /// The board as it was at dispatch, if kept.
    pub fn get_board_snapshot(&self) -> (r: Option<String>)
        ensures
            opt_view(r) == self@.columns.board_snapshot,
    {
        clone_opt(&self.columns.board_snapshot)
    }

    /// Keeps or clears the board snapshot, at `now`.
    pub fn set_board_snapshot(&mut self, snapshot: Option<&str>, now: &str)
        ensures
            final(self)@ == (RecordView {
                columns: ColumnsView { board_snapshot: opt_chars(snapshot), ..touched(old(self)@.columns, now@) },
                ..old(self)@
            }),
    {
        self.columns.board_snapshot = own_opt(snapshot);
        self.columns.updated_at = now.to_owned();
    }

    /// The target commit the run branched off, if known.
    pub fn get_branch_off_commit(&self) -> (r: Option<String>)
        ensures
            opt_view(r) == self@.columns.branch_off_commit,
    {
        clone_opt(&self.columns.branch_off_commit)
    }

    /// Sets or clears the branch-off commit, at `now`.
    pub fn set_branch_off_commit(&mut self, commit: Option<&str>, now: &str)
        ensures
            final(self)@ == (RecordView {
                columns: ColumnsView { branch_off_commit: opt_chars(commit), ..touched(old(self)@.columns, now@) },
                ..old(self)@
            }),
    {
        self.columns.branch_off_commit = own_opt(commit);
        self.columns.updated_at = now.to_owned();
    }

    /// How far delivery went.
    pub fn get_delivery_status(&self) -> (r: DeliveryStatus)
        ensures
            r == self@.columns.delivery_status,
    {
        self.columns.delivery_status
    }

    /// Sets how far delivery went, at `now`.
    pub fn set_delivery_status(&mut self, status: DeliveryStatus, now: &str)
        ensures
            final(self)@ == (RecordView {
                columns: ColumnsView { delivery_status: status, ..touched(old(self)@.columns, now@) },
                ..old(self)@
            }),
    {
        self.columns.delivery_status = status;
        self.columns.updated_at = now.to_owned();
    }

    /// The branch the run is delivered on, if any.
    pub fn get_delivery_branch(&self) -> (r: Option<String>)
        ensures
            opt_view(r) == self@.columns.delivery_branch,
    {
        clone_opt(&self.columns.delivery_branch)
    }

    /// Sets or clears the delivery branch, at `now`.
    pub fn set_delivery_branch(&mut self, branch: Option<&str>, now: &str)
        ensures
            final(self)@ == (RecordView {
                columns: ColumnsView { delivery_branch: opt_chars(branch), ..touched(old(self)@.columns, now@) },
                ..old(self)@
            }),
    {
        self.columns.delivery_branch = own_opt(branch);
        self.columns.updated_at = now.to_owned();
    }

    /// The pull request's address, if one was opened.
    pub fn get_pr_url(&self) -> (r: Option<String>)
        ensures
            opt_view(r) == self@.columns.pr_url,
    {
        clone_opt(&self.columns.pr_url)
    }

    /// Sets or clears the pull request's address, at `now`.
    pub fn set_pr_url(&mut self, url: Option<&str>, now: &str)
        ensures
            final(self)@ == (RecordView {
                columns: ColumnsView { pr_url: opt_chars(url), ..touched(old(self)@.columns, now@) },
                ..old(self)@
            }),
    {
        self.columns.pr_url = own_opt(url);
        self.columns.updated_at = now.to_owned();
    }

    /// The pull request's number, if one was opened.
    pub fn get_pr_number(&self) -> (r: Option<i64>)
        ensures
            r == self@.columns.pr_number,
    {
        self.columns.pr_number
    }

    /// Sets or clears the pull request's number, at `now`.
    pub fn set_pr_number(&mut self, number: Option<i64>, now: &str)
        ensures
            final(self)@ == (RecordView {
                columns: ColumnsView { pr_number: number, ..touched(old(self)@.columns, now@) },
                ..old(self)@
            }),
    {
        self.columns.pr_number = number;
        self.columns.updated_at = now.to_owned();
    }

    /// When the run was merged, if it was.
    pub fn get_merged_at(&self) -> (r: Option<String>)
        ensures
            opt_view(r) == self@.columns.merged_at,
    {
        clone_opt(&self.columns.merged_at)
    }

    /// When the run was abandoned, if it was.
    pub fn get_abandoned_at(&self) -> (r: Option<String>)
        ensures
            opt_view(r) == self@.columns.abandoned_at,
    {
        clone_opt(&self.columns.abandoned_at)
    }

    /// How many commits the target gained since the branch-off.
    pub fn get_staleness_commits(&self) -> (r: u32)
        ensures
            r == self@.columns.staleness_commits,
    {
        self.columns.staleness_commits
    }

    /// Records how many commits the target gained, at `now`.
    pub fn set_staleness_commits(&mut self, count: u32, now: &str)
        ensures
            final(self)@ == (RecordView {
                columns: ColumnsView { staleness_commits: count, ..touched(old(self)@.columns, now@) },
                ..old(self)@
            }),
    {
        self.columns.staleness_commits = count;
        self.columns.updated_at = now.to_owned();
    }

    /// Whether the run merges cleanly, as last checked.
    pub fn get_merge_state(&self) -> (r: MergeState)
        ensures
            r == self@.columns.merge_state,
    {
        self.columns.merge_state
    }

    /// Records whether the run merges cleanly, at `now`.
    pub fn set_merge_state(&mut self, state: MergeState, now: &str)
        ensures
            final(self)@ == (RecordView {
                columns: ColumnsView { merge_state: state, ..touched(old(self)@.columns, now@) },
                ..old(self)@
            }),
    {
        self.columns.merge_state = state;
        self.columns.updated_at = now.to_owned();
    }
}

} // verus!
