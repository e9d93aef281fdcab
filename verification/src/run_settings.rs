//! The run's settings row: what the run was asked to do and where, how it
//! is supervised, its time and iteration budgets, and the unread counter.
//! The row exists once the run was initialised or its status first set;
//! before that every getter gives the column's default and every setter
//! leaves the state as it is.

use vstd::prelude::*;
use crate::run_journal::{message_ids, next_row_id, opt_chars, own_opt, JournalView, ThreadMessageView};
use crate::run_state::{clone_opt, opt_view, LogEntry, RunView, SQLiteState, StateError, Status};

verus! {

/// The columns of the settings row.
#[derive(Debug)]
pub struct RunSettings {
    pub created_at: String,
    pub updated_at: String,
    pub request: Option<String>,
    pub project_path: Option<String>,
    pub unread_count: i64,
    pub human_in_the_loop: bool,
    pub summary: Option<String>,
    pub worker_scale: Option<String>,
    pub time_limit_minutes: Option<i64>,
    pub started_at: Option<String>,
    pub last_time_notification_pct: Option<i64>,
    pub learnings_processed_at: Option<String>,
    pub iteration_count: i64,
    pub max_iterations: Option<i64>,
    /// `sender` or `all`.
    pub pause_mode: String,
}

/// The contents of the settings row.
pub struct SettingsView {
    pub created_at: Seq<char>,
    pub updated_at: Seq<char>,
    pub request: Option<Seq<char>>,
    pub project_path: Option<Seq<char>>,
    pub unread_count: i64,
    pub human_in_the_loop: bool,
    pub summary: Option<Seq<char>>,
    pub worker_scale: Option<Seq<char>>,
    pub time_limit_minutes: Option<i64>,
    pub started_at: Option<Seq<char>>,
    pub last_time_notification_pct: Option<i64>,
    pub learnings_processed_at: Option<Seq<char>>,
    pub iteration_count: i64,
    pub max_iterations: Option<i64>,
    pub pause_mode: Seq<char>,
}

impl View for RunSettings {
    type V = SettingsView;

    open spec fn view(&self) -> SettingsView {
        SettingsView {
            created_at: self.created_at@,
            updated_at: self.updated_at@,
            request: opt_view(self.request),
            project_path: opt_view(self.project_path),
            unread_count: self.unread_count,
            human_in_the_loop: self.human_in_the_loop,
            summary: opt_view(self.summary),
            worker_scale: opt_view(self.worker_scale),
            time_limit_minutes: self.time_limit_minutes,
            started_at: opt_view(self.started_at),
            last_time_notification_pct: self.last_time_notification_pct,
            learnings_processed_at: opt_view(self.learnings_processed_at),
            iteration_count: self.iteration_count,
            max_iterations: self.max_iterations,
            pause_mode: self.pause_mode@,
        }
    }
}

/// The contents of an optional settings row.
pub open spec fn settings_view(o: Option<RunSettings>) -> Option<SettingsView> {
    match o {
        Some(s) => Some(s@),
        None => None,
    }
}

/// The row as the store first writes it at `now`: every column at its
/// default.
pub open spec fn default_settings(now: Seq<char>) -> SettingsView {
    SettingsView {
        created_at: now,
        updated_at: now,
        request: None,
        project_path: None,
        unread_count: 0,
        human_in_the_loop: true,
        summary: None,
        worker_scale: None,
        time_limit_minutes: None,
        started_at: None,
        last_time_notification_pct: None,
        learnings_processed_at: None,
        iteration_count: 0,
        max_iterations: None,
        pause_mode: "sender"@,
    }
}

/// The row after a status write at `now`: created if missing, else only
/// its update time changes.
pub open spec fn upserted(o: Option<SettingsView>, now: Seq<char>) -> SettingsView {
    match o {
        Some(s) => SettingsView { updated_at: now, ..s },
        None => default_settings(now),
    }
}

/// A row with every column at its default, written at `now`.
pub fn default_row(now: &str) -> (r: RunSettings)
    ensures
        r@ == default_settings(now@),
{
    RunSettings {
        created_at: now.to_owned(),
        updated_at: now.to_owned(),
        request: None,
        project_path: None,
        unread_count: 0,
        human_in_the_loop: true,
        summary: None,
        worker_scale: None,
        time_limit_minutes: None,
        started_at: None,
        last_time_notification_pct: None,
        learnings_processed_at: None,
        iteration_count: 0,
        max_iterations: None,
        pause_mode: "sender".to_owned(),
    }
}

/// The row, if any, with its update time set to `now`.
pub open spec fn stamped(o: Option<SettingsView>, now: Seq<char>) -> Option<SettingsView> {
    match o {
        Some(s) => Some(SettingsView { updated_at: now, ..s }),
        None => None,
    }
}

impl SQLiteState {
    /// Stamps the row, if any, with the update time `now`.
    pub(crate) fn stamp_row(&mut self, now: &str)
        ensures
            final(self)@ == (RunView { settings: stamped(old(self)@.settings, now@), ..old(self)@ }),
    {
        let ghost before = self@;
        match self.settings.take() {
            Some(mut s) => {
                s.updated_at = now.to_owned();
                self.settings = Some(s);
            },
            None => {},
        }
        assert(self@ =~= (RunView { settings: stamped(before.settings, now@), ..before }));
    }

    /// Writes the row for a status change at `now`: creates it if missing,
    /// else stamps its update time.
    pub(crate) fn upsert_row(&mut self, now: &str)
        ensures
            final(self)@ == (RunView { settings: Some(upserted(old(self)@.settings, now@)), ..old(self)@ }),
    {
        let ghost before = self@;
        match self.settings.take() {
            Some(mut s) => {
                s.updated_at = now.to_owned();
                self.settings = Some(s);
            },
            None => {
                self.settings = Some(default_row(now));
            },
        }
        assert(self@ =~= (RunView { settings: Some(upserted(before.settings, now@)), ..before }));
    }
}

/// What the workers are told when the user joins (`enabled`) or leaves.
pub open spec fn mode_notice(enabled: bool) -> Seq<char> {
    if enabled {
        "The user is now available. Feel free to message them if needed."@
    } else {
        "The user is currently unavailable for messages. Do not attempt to contact them - do the work to the best of your abilities."@
    }
}

impl SQLiteState {
    /// Starts the run afresh at `now`: the row is written anew with every
    /// column at its default but the project path, the run is idle and not
    /// waiting, and the start is recorded.
    pub fn init_state(&mut self, project_path: Option<&str>, now: &str)
        ensures
            final(self)@ == (RunView {
                status: Status::Idle,
                waiting_reason: None,
                settings: Some(SettingsView { project_path: opt_chars(project_path), ..default_settings(now@) }),
                log: old(self)@.log.push(("init"@, None)),
                ..old(self)@
            }),
    {
        let mut row = default_row(now);
        row.project_path = own_opt(project_path);
        self.settings = Some(row);
        self.status = Status::Idle;
        self.waiting_reason = None;
        let ghost lg = self@.log;
        self.log.push(LogEntry { action: "init".to_owned(), detail: None });
        assert(self@.log =~= lg.push(("init"@, None)));
    }

    /// When the row was first written, if it was.
    pub fn get_created_at(&self) -> (r: Option<String>)
        ensures
            opt_view(r) == match self@.settings {
                Some(s) => Some(s.created_at),
                None => None,
            },
    {
        match &self.settings {
            Some(s) => Some(s.created_at.clone()),
            None => None,
        }
    }

    /// Keeps the generated summary, at `now`; the generation is recorded.
    pub fn set_summary(&mut self, summary: &str, now: &str)
        ensures
            final(self)@ == (RunView {
                settings: match old(self)@.settings {
                    Some(s) => Some(SettingsView { summary: Some(summary@), updated_at: now@, ..s }),
                    None => None,
                },
                log: old(self)@.log.push(("summary_generated"@, None)),
                ..old(self)@
            }),
    {
        if let Some(mut s) = self.settings.take() {
            s.summary = Some(summary.to_owned());
            s.updated_at = now.to_owned();
            self.settings = Some(s);
        }
        let ghost lg = self@.log;
        self.log.push(LogEntry { action: "summary_generated".to_owned(), detail: None });
        assert(self@.log =~= lg.push(("summary_generated"@, None)));
    }

    /// Whether the user takes part in the run; so by default.
    pub fn get_human_in_the_loop(&self) -> (r: bool)
        ensures
            r == match self@.settings {
                Some(s) => s.human_in_the_loop,
                None => true,
            },
    {
        match &self.settings {
            Some(s) => s.human_in_the_loop,
            None => true,
        }
    }

    /// Says whether the user takes part, at `now`: the change is recorded
    /// and the workers are told on the group thread.
    pub fn set_human_in_the_loop(&mut self, enabled: bool, now: &str)
        requires
            old(self).journal_wf(),
            next_row_id(message_ids(old(self)@.journal.messages)) <= i64::MAX,
        ensures
            final(self).journal_wf(),
            final(self)@ == (RunView {
                settings: match old(self)@.settings {
                    Some(s) => Some(SettingsView { human_in_the_loop: enabled, updated_at: now@, ..s }),
                    None => None,
                },
                log: old(self)@.log.push(("mode_change"@, Some(if enabled { "hitl"@ } else { "yolo"@ }))),
                journal: JournalView {
                    messages: old(self)@.journal.messages.push(ThreadMessageView {
                        id: next_row_id(message_ids(old(self)@.journal.messages)) as i64,
                        thread: "group"@,
                        sender: "System"@,
                        content: mode_notice(enabled),
                        timestamp: now@,
                        waiting: false,
                    }),
                    ..old(self)@.journal
                },
                ..old(self)@
            }),
    {
        if let Some(mut s) = self.settings.take() {
            s.human_in_the_loop = enabled;
            s.updated_at = now.to_owned();
            self.settings = Some(s);
        }
        let mode = if enabled { "hitl" } else { "yolo" };
        let ghost lg = self@.log;
        self.log.push(LogEntry { action: "mode_change".to_owned(), detail: Some(mode.to_owned()) });
        assert(self@.log =~= lg.push(("mode_change"@, Some(if enabled { "hitl"@ } else { "yolo"@ }))));
        let msg = if enabled {
            "The user is now available. Feel free to message them if needed."
        } else {
            "The user is currently unavailable for messages. Do not attempt to contact them - do the work to the best of your abilities."
        };
        self.add_message("group", "System", msg, false, now);
    }

    /// Starts the run's clock at `timestamp`, or at `now` when none is given.
    pub fn set_started_at(&mut self, timestamp: Option<&str>, now: &str)
        ensures
            final(self)@ == (RunView {
                settings: match old(self)@.settings {
                    Some(s) => Some(SettingsView {
                        started_at: Some(match timestamp {
                            Some(t) => t@,
                            None => now@,
                        }),
                        updated_at: now@,
                        ..s
                    }),
                    None => None,
                },
                ..old(self)@
            }),
    {
        if let Some(mut s) = self.settings.take() {
            s.started_at = Some(match timestamp {
                Some(t) => t.to_owned(),
                None => now.to_owned(),
            });
            s.updated_at = now.to_owned();
            self.settings = Some(s);
        }
    }

    /// Stops the run's clock and forgets the last time notice, at `now`.
    pub fn clear_time_tracking(&mut self, now: &str)
        ensures
            final(self)@ == (RunView {
                settings: match old(self)@.settings {
                    Some(s) => Some(SettingsView {
                        started_at: None,
                        last_time_notification_pct: None,
                        updated_at: now@,
                        ..s
                    }),
                    None => None,
                },
                ..old(self)@
            }),
    {
        if let Some(mut s) = self.settings.take() {
            s.started_at = None;
            s.last_time_notification_pct = None;
            s.updated_at = now.to_owned();
            self.settings = Some(s);
        }
    }

    /// Whether the run's time budget is spent, `elapsed_seconds` after its
    /// clock started. Without a budget or a running clock it is not;
    /// `elapsed_seconds` is `None` when the start time could not be read,
    /// which is an error.
    pub fn is_time_expired(&self, elapsed_seconds: Option<i64>) -> (r: Result<bool, StateError>)
        ensures
            match self@.settings {
                Some(s) => match (s.time_limit_minutes, s.started_at) {
                    (Some(limit), Some(_)) => match elapsed_seconds {
                        Some(e) => r == Ok::<bool, StateError>(e >= limit * 60),
                        None => r matches Err(StateError::InvalidState(m)) && m@ == "Invalid started_at timestamp"@,
                    },
                    _ => r == Ok::<bool, StateError>(false),
                },
                None => r == Ok::<bool, StateError>(false),
            },
    {
        match &self.settings {
            Some(s) => match (s.time_limit_minutes, &s.started_at) {
                (Some(limit), Some(_)) => match elapsed_seconds {
                    Some(e) => Ok((e as i128) >= (limit as i128) * 60),
                    None => Err(StateError::InvalidState("Invalid started_at timestamp".to_owned())),
                },
                _ => Ok(false),
            },
            None => Ok(false),
        }
    }

    /// How many iterations the run went through.
    pub fn get_iteration_count(&self) -> (r: i64)
        ensures
            r == match self@.settings {
                Some(s) => s.iteration_count,
                None => 0,
            },
    {
        match &self.settings {
            Some(s) => s.iteration_count,
            None => 0,
        }
    }

    /// Counts one more iteration at `now` and returns the count.
    pub fn increment_iteration(&mut self, now: &str) -> (r: i64)
        requires
            old(self)@.settings matches Some(s) ==> s.iteration_count < i64::MAX,
        ensures
            final(self)@ == (RunView {
                settings: match old(self)@.settings {
                    Some(s) => Some(SettingsView { iteration_count: (s.iteration_count + 1) as i64, updated_at: now@, ..s }),
                    None => None,
                },
                ..old(self)@
            }),
            r == match final(self)@.settings {
                Some(s) => s.iteration_count,
                None => 0,
            },
    {
        if let Some(mut s) = self.settings.take() {
            s.iteration_count = s.iteration_count + 1;
            s.updated_at = now.to_owned();
            self.settings = Some(s);
        }
        self.get_iteration_count()
    }

    /// How a pause reaches the workers: `sender` (the default) or `all`.
    pub fn get_pause_mode(&self) -> (r: String)
        ensures
            r@ == match self@.settings {
                Some(s) => s.pause_mode,
                None => "sender"@,
            },
    {
        match &self.settings {
            Some(s) => s.pause_mode.clone(),
            None => "sender".to_owned(),
        }
    }

    /// Sets how a pause reaches the workers, at `now`.
    pub fn set_pause_mode(&mut self, mode: &str, now: &str)
        ensures
            final(self)@ == (RunView {
                settings: match old(self)@.settings {
                    Some(s) => Some(SettingsView { pause_mode: mode@, updated_at: now@, ..s }),
                    None => None,
                },
                ..old(self)@
            }),
    {
        if let Some(mut s) = self.settings.take() {
            s.pause_mode = mode.to_owned();
            s.updated_at = now.to_owned();
            self.settings = Some(s);
        }
    }

    /// Counts one more unread notice for the user.
    pub fn increment_unread(&mut self)
        requires
            old(self)@.settings matches Some(s) ==> s.unread_count < i64::MAX,
        ensures
            final(self)@ == (RunView {
                settings: match old(self)@.settings {
                    Some(s) => Some(SettingsView { unread_count: (s.unread_count + 1) as i64, ..s }),
                    None => None,
                },
                ..old(self)@
            }),
    {
        if let Some(mut s) = self.settings.take() {
            s.unread_count = s.unread_count + 1;
            self.settings = Some(s);
        }
    }

    /// Clears the user's unread notices.
    pub fn clear_unread(&mut self)
        ensures
            final(self)@ == (RunView {
                settings: match old(self)@.settings {
                    Some(s) => Some(SettingsView { unread_count: 0, ..s }),
                    None => None,
                },
                ..old(self)@
            }),
    {
        if let Some(mut s) = self.settings.take() {
            s.unread_count = 0;
            self.settings = Some(s);
        }
    }

    /// How many notices the user has not read.
    pub fn get_unread_count(&self) -> (r: i64)
        ensures
            r == match self@.settings {
                Some(s) => s.unread_count,
                None => 0,
            },
    {
        match &self.settings {
            Some(s) => s.unread_count,
            None => 0,
        }
    }

    /// What the run was asked to do, if set.
    pub fn get_request(&self) -> (r: Option<String>)
        ensures
            opt_view(r) == match self@.settings {
                Some(s) => s.request,
                None => None,
            },
    {
        match &self.settings {
            Some(s) => clone_opt(&s.request),
            None => None,
        }
    }

    /// Sets or clears the request, at `now`.
    pub fn set_request(&mut self, request: Option<&str>, now: &str)
        ensures
            final(self)@ == (RunView {
                settings: match old(self)@.settings {
                    Some(s) => Some(SettingsView { request: opt_chars(request), updated_at: now@, ..s }),
                    None => None,
                },
                ..old(self)@
            }),
    {
        if let Some(mut s) = self.settings.take() {
            s.request = own_opt(request);
            s.updated_at = now.to_owned();
            self.settings = Some(s);
        }
    }

    /// The project the run works in, if set.
    pub fn get_project_path(&self) -> (r: Option<String>)
        ensures
            opt_view(r) == match self@.settings {
                Some(s) => s.project_path,
                None => None,
            },
    {
        match &self.settings {
            Some(s) => clone_opt(&s.project_path),
            None => None,
        }
    }

    /// Sets the project path, at `now`.
    pub fn set_project_path(&mut self, path: &str, now: &str)
        ensures
            final(self)@ == (RunView {
                settings: match old(self)@.settings {
                    Some(s) => Some(SettingsView { project_path: Some(path@), updated_at: now@, ..s }),
                    None => None,
                },
                ..old(self)@
            }),
    {
        if let Some(mut s) = self.settings.take() {
            s.project_path = Some(path.to_owned());
            s.updated_at = now.to_owned();
            self.settings = Some(s);
        }
    }

    /// The generated summary of the run, if any.
    pub fn get_summary(&self) -> (r: Option<String>)
        ensures
            opt_view(r) == match self@.settings {
                Some(s) => s.summary,
                None => None,
            },
    {
        match &self.settings {
            Some(s) => clone_opt(&s.summary),
            None => None,
        }
    }

    /// How many workers the run is scaled to, as set.
    pub fn get_worker_scale(&self) -> (r: Option<String>)
        ensures
            opt_view(r) == match self@.settings {
                Some(s) => s.worker_scale,
                None => None,
            },
    {
        match &self.settings {
            Some(s) => clone_opt(&s.worker_scale),
            None => None,
        }
    }

    /// Sets the worker scale, at `now`.
    pub fn set_worker_scale(&mut self, scale: &str, now: &str)
        ensures
            final(self)@ == (RunView {
                settings: match old(self)@.settings {
                    Some(s) => Some(SettingsView { worker_scale: Some(scale@), updated_at: now@, ..s }),
                    None => None,
                },
                ..old(self)@
            }),
    {
        if let Some(mut s) = self.settings.take() {
            s.worker_scale = Some(scale.to_owned());
            s.updated_at = now.to_owned();
            self.settings = Some(s);
        }
    }

    /// The run's time budget in minutes, if any.
    pub fn get_time_limit_minutes(&self) -> (r: Option<i64>)
        ensures
            r == match self@.settings {
                Some(s) => s.time_limit_minutes,
                None => None,
            },
    {
        match &self.settings {
            Some(s) => s.time_limit_minutes,
            None => None,
        }
    }

    /// Sets or clears the time budget, at `now`.
    pub fn set_time_limit_minutes(&mut self, minutes: Option<i64>, now: &str)
        ensures
            final(self)@ == (RunView {
                settings: match old(self)@.settings {
                    Some(s) => Some(SettingsView { time_limit_minutes: minutes, updated_at: now@, ..s }),
                    None => None,
                },
                ..old(self)@
            }),
    {
        if let Some(mut s) = self.settings.take() {
            s.time_limit_minutes = minutes;
            s.updated_at = now.to_owned();
            self.settings = Some(s);
        }
    }

    /// When the run's clock started, if it did.
    pub fn get_started_at(&self) -> (r: Option<String>)
        ensures
            opt_view(r) == match self@.settings {
                Some(s) => s.started_at,
                None => None,
            },
    {
        match &self.settings {
            Some(s) => clone_opt(&s.started_at),
            None => None,
        }
    }

    /// The share of the time budget at which workers were last told, in percent.
    pub fn get_last_time_notification_pct(&self) -> (r: Option<i64>)
        ensures
            r == match self@.settings {
                Some(s) => s.last_time_notification_pct,
                None => None,
            },
    {
        match &self.settings {
            Some(s) => s.last_time_notification_pct,
            None => None,
        }
    }

    /// Records that workers were told at `pct` percent, at `now`.
    pub fn set_last_time_notification_pct(&mut self, pct: i64, now: &str)
        ensures
            final(self)@ == (RunView {
                settings: match old(self)@.settings {
                    Some(s) => Some(SettingsView { last_time_notification_pct: Some(pct), updated_at: now@, ..s }),
                    None => None,
                },
                ..old(self)@
            }),
    {
        if let Some(mut s) = self.settings.take() {
            s.last_time_notification_pct = Some(pct);
            s.updated_at = now.to_owned();
            self.settings = Some(s);
        }
    }

    /// The run's iteration budget, if any.
    pub fn get_max_iterations(&self) -> (r: Option<i64>)
        ensures
            r == match self@.settings {
                Some(s) => s.max_iterations,
                None => None,
            },
    {
        match &self.settings {
            Some(s) => s.max_iterations,
            None => None,
        }
    }

    /// Sets or clears the iteration budget, at `now`.
    pub fn set_max_iterations(&mut self, max_iter: Option<i64>, now: &str)
        ensures
            final(self)@ == (RunView {
                settings: match old(self)@.settings {
                    Some(s) => Some(SettingsView { max_iterations: max_iter, updated_at: now@, ..s }),
                    None => None,
                },
                ..old(self)@
            }),
    {
        if let Some(mut s) = self.settings.take() {
            s.max_iterations = max_iter;
            s.updated_at = now.to_owned();
            self.settings = Some(s);
        }
    }

    /// When the learnings were last processed, if ever.
    pub fn get_learnings_processed_at(&self) -> (r: Option<String>)
        ensures
            opt_view(r) == match self@.settings {
                Some(s) => s.learnings_processed_at,
                None => None,
            },
    {
        match &self.settings {
            Some(s) => clone_opt(&s.learnings_processed_at),
            None => None,
        }
    }

    /// Records when the learnings were processed, at `now`.
    pub fn set_learnings_processed_at(&mut self, timestamp: &str, now: &str)
        ensures
            final(self)@ == (RunView {
                settings: match old(self)@.settings {
                    Some(s) => Some(SettingsView { learnings_processed_at: Some(timestamp@), updated_at: now@, ..s }),
                    None => None,
                },
                ..old(self)@
            }),
    {
        if let Some(mut s) = self.settings.take() {
            s.learnings_processed_at = Some(timestamp.to_owned());
            s.updated_at = now.to_owned();
            self.settings = Some(s);
        }
    }
}

} // verus!
