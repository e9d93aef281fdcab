//! The shepherd: its decision and command records, the local engine's
//! answers, chat scopes and their storage names, and the helpers that shape
//! what a turn leaves behind.

use vstd::prelude::*;
use crate::run_state::{clone_opt, opt_view};
use crate::chat_store::{
    effort_runtime, effort_updated, efforts_wf, finished_turn, new_turn, next_turn_id, turn_ids_increase, turn_views,
    turn_waiting, EffortView, ShepherdChatStore, ShepherdQueuedTurn, TurnView,
};
use crate::text::{
    concat, concat3, decimal, push_char, to_chars, join, joined, signed_decimal, str_eq, take_chars, to_decimal, to_signed_decimal, trim,
    trimmed, views,
};

verus! {

/// What a shepherd decision is about.
#[derive(Debug, Clone, Copy, PartialEq, Eq, Structural)]
pub enum ShepherdDecisionType {
    Decompose,
    Assign,
    Replan,
    Validate,
    Deliver,
    Message,
}

/// What a shepherd command asks for.
#[derive(Debug, Clone, Copy, PartialEq, Eq, Structural)]
pub enum ShepherdCommandType {
    SpawnWorker,
    ResumeWorker,
    StopWorker,
    RunCheck,
    CompleteRun,
}

/// Where a shepherd command stands.
#[derive(Debug, Clone, Copy, PartialEq, Eq, Structural)]
pub enum ShepherdCommandStatus {
    Pending,
    Running,
    Succeeded,
    Failed,
}

/// A decision the shepherd took for a run.
#[derive(Debug)]
pub struct ShepherdDecision {
    pub run_name: String,
    pub decision_type: ShepherdDecisionType,
    pub summary: String,
    pub payload_json: String,
    pub created_at: String,
}

/// A command the shepherd issued for a run.
#[derive(Debug)]
pub struct ShepherdCommand {
    pub run_name: String,
    pub command_type: ShepherdCommandType,
    pub status: ShepherdCommandStatus,
    pub payload_json: String,
    pub created_at: String,
}

/// The lowercase hexadecimal digit of `d`, below sixteen.
pub open spec fn hex_digit(d: u32) -> char {
    if d == 0 { '0' }
    else if d == 1 { '1' }
    else if d == 2 { '2' }
    else if d == 3 { '3' }
    else if d == 4 { '4' }
    else if d == 5 { '5' }
    else if d == 6 { '6' }
    else if d == 7 { '7' }
    else if d == 8 { '8' }
    else if d == 9 { '9' }
    else if d == 10 { 'a' }
    else if d == 11 { 'b' }
    else if d == 12 { 'c' }
    else if d == 13 { 'd' }
    else if d == 14 { 'e' }
    else { 'f' }
}

/// How a character stands inside a JSON string as `serde_json` writes it:
/// the quote and the backslash behind a backslash; backspace, tab, line
/// feed, form feed and carriage return as `\b`, `\t`, `\n`, `\f` and `\r`;
/// the other control characters below 0x20 as `\u00` and two lowercase
/// hexadecimal digits; every other character as itself.
pub open spec fn json_escape(c: char) -> Seq<char> {
    let u = c as u32;
    if c == '"' {
        seq!['\\', '"']
    } else if c == '\\' {
        seq!['\\', '\\']
    } else if u == 8 {
        seq!['\\', 'b']
    } else if u == 9 {
        seq!['\\', 't']
    } else if u == 10 {
        seq!['\\', 'n']
    } else if u == 12 {
        seq!['\\', 'f']
    } else if u == 13 {
        seq!['\\', 'r']
    } else if u < 0x20 {
        seq!['\\', 'u', '0', '0', hex_digit(u / 16), hex_digit(u % 16)]
    } else {
        seq![c]
    }
}

/// The characters of `s`, each as it stands inside a JSON string.
pub open spec fn json_body(s: Seq<char>) -> Seq<char>
    decreases s.len(),
{
    if s.len() == 0 {
        Seq::empty()
    } else {
        json_body(s.drop_last()) + json_escape(s.last())
    }
}

/// The JSON text of the string `s`, as `serde_json::to_string` writes it:
/// quoted, with its characters escaped.
pub open spec fn json_quoted(s: Seq<char>) -> Seq<char> {
    seq!['"'] + json_body(s) + seq!['"']
}

/// The hexadecimal digit of `d`, below sixteen.
fn hex_char(d: u32) -> (c: char)
    requires
        d < 16,
    ensures
        c == hex_digit(d),
{
    if d == 0 { '0' }
    else if d == 1 { '1' }
    else if d == 2 { '2' }
    else if d == 3 { '3' }
    else if d == 4 { '4' }
    else if d == 5 { '5' }
    else if d == 6 { '6' }
    else if d == 7 { '7' }
    else if d == 8 { '8' }
    else if d == 9 { '9' }
    else if d == 10 { 'a' }
    else if d == 11 { 'b' }
    else if d == 12 { 'c' }
    else if d == 13 { 'd' }
    else if d == 14 { 'e' }
    else { 'f' }
}

/// Appends to `out` how `c` stands inside a JSON string.
fn push_json_escape(out: &mut String, c: char)
    ensures
        final(out)@ == old(out)@ + json_escape(c),
{
    let u = c as u32;
    if c == '"' || c == '\\' {
        push_char(out, '\\');
        push_char(out, c);
    } else if u == 8 || u == 9 || u == 10 || u == 12 || u == 13 {
        push_char(out, '\\');
        let e = if u == 8 { 'b' } else if u == 9 { 't' } else if u == 10 { 'n' } else if u == 12 { 'f' } else { 'r' };
        push_char(out, e);
    } else if u < 0x20 {
        push_char(out, '\\');
        push_char(out, 'u');
        push_char(out, '0');
        push_char(out, '0');
        push_char(out, hex_char(u / 16));
        push_char(out, hex_char(u % 16));
    } else {
        push_char(out, c);
    }
}

/// The JSON text of the string `s`, as `serde_json::to_string` writes it.
fn quote_json(s: &str) -> (r: String)
    ensures
        r@ == json_quoted(s@),
{
    let cs = to_chars(s);
    let mut out = String::new();
    push_char(&mut out, '"');
    let mut i: usize = 0;
    assert(s@.take(0) =~= Seq::<char>::empty());
    while i < cs.len()
        invariant
            i <= cs.len(),
            cs@ == s@,
            out@ == seq!['"'] + json_body(s@.take(i as int)),
        decreases cs.len() - i,
    {
        push_json_escape(&mut out, cs[i]);
        assert(s@.take(i as int + 1).drop_last() =~= s@.take(i as int));
        assert(s@.take(i as int + 1).last() == cs@[i as int]);
        assert(out@ =~= seq!['"'] + json_body(s@.take(i as int + 1)));
        i = i + 1;
    }
    push_char(&mut out, '"');
    assert(s@.take(cs.len() as int) =~= s@);
    out
}

/// The payload of a message decision: `{"message":<message>}`.
pub open spec fn message_payload(message: Seq<char>) -> Seq<char> {
    "{\"message\":"@ + json_quoted(message) + "}"@
}

/// The local shepherd engine: it accepts instructions as they come and asks
/// for a worker for every run.
#[derive(Debug)]
pub struct LocalShepherdEngine;

impl LocalShepherdEngine {
    /// The run context of a project's route: `shepherd:{project}:{route}`.
    pub fn start_run_context(&self, project_id: i64, route_id: i64) -> (r: Result<String, String>)
        ensures
            r matches Ok(s) && s@ == "shepherd:"@ + signed_decimal(project_id as int) + ":"@
                + signed_decimal(route_id as int),
    {
        let p = to_signed_decimal(project_id);
        let q = to_signed_decimal(route_id);
        let a = concat3("shepherd:", p.as_str(), ":");
        Ok(concat(a.as_str(), q.as_str()))
    }

    /// The decision taken on a user's message to the run `run_name`, at
    /// `now`: the message is accepted as an instruction.
    pub fn ingest_user_message(&self, run_name: &str, message: &str, now: String) -> (r: Result<ShepherdDecision, String>)
        ensures
            r matches Ok(d) && d.run_name@ == run_name@ && d.decision_type == ShepherdDecisionType::Message
                && d.summary@ == "Accepted user instruction"@ && d.payload_json@ == message_payload(message@)
                && d.created_at == now,
    {
        let q = quote_json(message);
        let payload = concat3("{\"message\":", q.as_str(), "}");
        Ok(ShepherdDecision {
            run_name: run_name.to_owned(),
            decision_type: ShepherdDecisionType::Message,
            summary: "Accepted user instruction".to_owned(),
            payload_json: payload,
            created_at: now,
        })
    }

    /// The commands issued for the run `run_name` at `now`: one pending
    /// request for a worker.
    pub fn issue_assignments(&self, run_name: &str, now: String) -> (r: Result<Vec<ShepherdCommand>, String>)
        ensures
            r matches Ok(v) && v@.len() == 1 && v@[0].run_name@ == run_name@
                && v@[0].command_type == ShepherdCommandType::SpawnWorker
                && v@[0].status == ShepherdCommandStatus::Pending && v@[0].payload_json@ == "{}"@
                && v@[0].created_at == now,
    {
        let mut v: Vec<ShepherdCommand> = Vec::new();
        v.push(ShepherdCommand {
            run_name: run_name.to_owned(),
            command_type: ShepherdCommandType::SpawnWorker,
            status: ShepherdCommandStatus::Pending,
            payload_json: "{}".to_owned(),
            created_at: now,
        });
        Ok(v)
    }
}

/// What a turn was started to discuss.
#[derive(Debug)]
pub enum ShepherdScope {
    /// The general chat, outside any project.
    General,
    /// A project's own chat.
    Project { project_id: i64 },
    /// The chat of one effort of a project.
    Effort { project_id: i64, effort_id: String },
    /// A private branch turn of another runtime.
    Branch { runtime_id: String },
}

/// A piece of a chat message.
#[derive(Debug)]
pub enum ShepherdMessageChunk {
    Text { content: String },
    Tool {
        id: String,
        title: String,
        kind: String,
        status: String,
        input: Option<String>,
        output: Option<String>,
    },
}

/// The key of a scope's durable turn queue; a branch has none.
pub open spec fn queue_key(scope: ShepherdScope) -> Option<Seq<char>> {
    match scope {
        ShepherdScope::General => Some("general"@),
        ShepherdScope::Project { project_id } => Some("project:"@ + signed_decimal(project_id as int)),
        ShepherdScope::Effort { project_id, effort_id } => Some(
            "effort:"@ + signed_decimal(project_id as int) + ":"@ + effort_id@,
        ),
        ShepherdScope::Branch { .. } => None,
    }
}

/// The key of the durable queue of `scope`, if it has one.
pub fn scope_queue_key(scope: &ShepherdScope) -> (r: Option<String>)
    ensures
        match r {
            Some(k) => queue_key(*scope) == Some(k@),
            None => queue_key(*scope) is None,
        },
{
    match scope {
        ShepherdScope::General => Some("general".to_owned()),
        ShepherdScope::Project { project_id } => {
            let p = to_signed_decimal(*project_id);
            Some(concat("project:", p.as_str()))
        },
        ShepherdScope::Effort { project_id, effort_id } => {
            let p = to_signed_decimal(*project_id);
            let a = concat3("effort:", p.as_str(), ":");
            Some(concat(a.as_str(), effort_id.as_str()))
        },
        ShepherdScope::Branch { .. } => None,
    }
}

/// The project id and runtime name under which a scope's messages are kept.
pub open spec fn storage_ids(scope: ShepherdScope) -> (Option<i64>, Option<Seq<char>>) {
    match scope {
        ShepherdScope::General => (None, None),
        ShepherdScope::Project { project_id } => (Some(project_id), Some("__project__"@)),
        ShepherdScope::Effort { project_id, effort_id } => (Some(project_id), Some(effort_runtime(effort_id@))),
        ShepherdScope::Branch { .. } => (None, None),
    }
}

/// The project id and runtime name under which the messages of `scope` are
/// kept.
pub fn scope_storage_ids(scope: &ShepherdScope) -> (r: (Option<i64>, Option<String>))
    ensures
        r.0 == storage_ids(*scope).0,
        crate::run_state::opt_view(r.1) == storage_ids(*scope).1,
{
    match scope {
        ShepherdScope::General => (None, None),
        ShepherdScope::Project { project_id } => (Some(*project_id), Some(ShepherdChatStore::project_chat_run_name().to_owned())),
        ShepherdScope::Effort { project_id, effort_id } => (
            Some(*project_id),
            Some(ShepherdChatStore::effort_runtime_name(effort_id.as_str())),
        ),
        ShepherdScope::Branch { .. } => (None, None),
    }
}

/// `text` trimmed, cut to `max_chars` characters with `...` added when it
/// is longer.
pub open spec fn truncated_note(text: Seq<char>, max_chars: nat) -> Seq<char> {
    let t = trimmed(text);
    if t.len() <= max_chars {
        t
    } else {
        t.take(max_chars as int) + "..."@
    }
}

/// A short internal note made from `text`.
pub fn truncate_internal_note(text: &str, max_chars: usize) -> (r: String)
    ensures
        r@ == truncated_note(text@, max_chars as nat),
{
    let t = trim(text);
    if t.unicode_len() <= max_chars {
        return t;
    }
    let head = take_chars(t.as_str(), max_chars);
    concat(head.as_str(), "...")
}

/// The trimmed, non-empty texts of the text chunks of `chunks`, in order.
pub open spec fn summary_parts(chunks: Seq<ShepherdMessageChunk>) -> Seq<Seq<char>>
    decreases chunks.len(),
{
    if chunks.len() == 0 {
        Seq::empty()
    } else {
        let p = summary_parts(chunks.drop_last());
        match chunks.last() {
            ShepherdMessageChunk::Text { content } => if trimmed(content@).len() > 0 {
                p.push(trimmed(content@))
            } else {
                p
            },
            _ => p,
        }
    }
}

/// The summary of a turn's chunks: their texts joined by blank lines and
/// trimmed, cut to 240 characters with `...` added when longer, or a
/// placeholder when there is no text.
pub open spec fn chunks_summary(chunks: Seq<ShepherdMessageChunk>) -> Seq<char> {
    let s = trimmed(joined(summary_parts(chunks), "\n\n"@));
    if s.len() == 0 {
        "No summary available yet."@
    } else if s.len() > 240 {
        s.take(240) + "..."@
    } else {
        s
    }
}

/// The summary of a turn's chunks.
pub fn result_summary_from_chunks(chunks: &[ShepherdMessageChunk]) -> (r: String)
    ensures
        r@ == chunks_summary(chunks@),
{
    let mut parts: Vec<String> = Vec::new();
    let mut i: usize = 0;
    while i < chunks.len()
        invariant
            i <= chunks.len(),
            views(parts@) == summary_parts(chunks@.take(i as int)),
        decreases chunks.len() - i,
    {
        assert(chunks@.take(i as int + 1).drop_last() =~= chunks@.take(i as int));
        assert(chunks@.take(i as int + 1).last() == chunks@[i as int]);
        match &chunks[i] {
            ShepherdMessageChunk::Text { content } => {
                let t = trim(content.as_str());
                if t.unicode_len() > 0 {
                    let ghost before = parts@;
                    parts.push(t);
                    assert(views(parts@) =~= views(before).push(trimmed(content@)));
                }
            },
            _ => {},
        }
        i = i + 1;
    }
    assert(chunks@.take(chunks.len() as int) =~= chunks@);
    let all = join(&parts, "\n\n");
    let s = trim(all.as_str());
    if s.unicode_len() == 0 {
        return "No summary available yet.".to_owned();
    }
    if s.unicode_len() > 240 {
        let head = take_chars(s.as_str(), 240);
        concat(head.as_str(), "...")
    } else {
        s
    }
}

/// The answer to queueing a message for a scope.
#[derive(Debug)]
pub struct EnqueueShepherdMessageResponse {
    pub queued: bool,
    pub queue_depth: usize,
    pub effort_id: Option<String>,
}

/// A scope's queue as the interface shows it.
#[derive(Debug)]
pub struct ShepherdQueueState {
    pub items: Vec<ShepherdQueuedTurn>,
    pub has_active_turn: bool,
}

/// The scopes whose queue processors are running, each once.
#[derive(Debug)]
pub struct ScopeProcessors {
    pub active: Vec<String>,
}

/// No key occurs twice.
pub open spec fn distinct_keys(keys: Seq<Seq<char>>) -> bool {
    forall|a: int, c: int| 0 <= a < c < keys.len() ==> keys[a] != keys[c]
}

/// Whether a key differs from `key`.
pub open spec fn other_than(key: Seq<char>) -> spec_fn(Seq<char>) -> bool {
    |k: Seq<char>| k != key
}

impl ScopeProcessors {
    /// The set of running processors holds each scope once.
    pub open spec fn wf(&self) -> bool {
        distinct_keys(views(self.active@))
    }

    /// No processor running.
    pub fn new() -> (r: ScopeProcessors)
        ensures
            r.wf(),
            r.active@.len() == 0,
    {
        ScopeProcessors { active: Vec::new() }
    }

    /// Asks for a processor of the queue of `scope`. A branch has no queue;
    /// a scope whose processor runs gets no second one (`None`); otherwise
    /// the scope's key is recorded as running and returned.
    pub fn kick(&mut self, scope: &ShepherdScope) -> (r: Result<Option<String>, String>)
        requires
            old(self).wf(),
        ensures
            final(self).wf(),
            match queue_key(*scope) {
                None => (r matches Err(m) && m@ == "branch scope cannot own durable queued turns"@)
                    && final(self).active@ == old(self).active@,
                Some(k) => if views(old(self).active@).contains(k) {
                    r matches Ok(None) && final(self).active@ == old(self).active@
                } else {
                    (r matches Ok(Some(s)) && s@ == k) && views(final(self).active@) == views(old(self).active@).push(k)
                },
            },
    {
        let key = match scope_queue_key(scope) {
            None => return Err("branch scope cannot own durable queued turns".to_owned()),
            Some(k) => k,
        };
        if crate::text::contains_str(&self.active, key.as_str()) {
            return Ok(None);
        }
        let ghost before = views(self.active@);
        self.active.push(key.clone());
        proof {
            assert(views(self.active@) =~= before.push(key@));
            assert forall|a: int, c: int| 0 <= a < c < views(self.active@).len() implies
                views(self.active@)[a] != views(self.active@)[c] by {
                if c == before.len() {
                    assert(views(self.active@)[a] == before[a]);
                    if before[a] == key@ {
                        assert(before.contains(key@));
                    }
                } else {
                    assert(views(self.active@)[a] == before[a] && views(self.active@)[c] == before[c]);
                }
            }
        }
        Ok(Some(key))
    }

    /// Records that the processor of the queue `scope_key` finished.
    pub fn finish(&mut self, scope_key: &str)
        requires
            old(self).wf(),
        ensures
            final(self).wf(),
            views(final(self).active@) == views(old(self).active@).filter(other_than(scope_key@)),
    {
        let ghost ks = views(self.active@);
        let mut kept: Vec<String> = Vec::new();
        let mut i: usize = 0;
        proof {
            assert(ks.take(0) =~= Seq::<Seq<char>>::empty());
            reveal(Seq::filter);
            assert(ks.take(0).filter(other_than(scope_key@)) =~= Seq::<Seq<char>>::empty());
            assert(views(kept@) =~= Seq::<Seq<char>>::empty());
        }
        while i < self.active.len()
            invariant
                i <= self.active.len(),
                ks == views(self.active@),
                ks.len() == self.active.len(),
                distinct_keys(ks),
                views(kept@) == ks.take(i as int).filter(other_than(scope_key@)),
                distinct_keys(views(kept@)),
                forall|a: int| 0 <= a < kept@.len() ==> exists|j: int| 0 <= j < i && (#[trigger] views(kept@)[a]) == ks[j],
            decreases self.active.len() - i,
        {
            assert(ks[i as int] == self.active@[i as int]@);
            assert(ks.take(i as int + 1) =~= ks.take(i as int).push(ks[i as int]));
            proof {
                ks.take(i as int).lemma_filter_push(ks[i as int], other_than(scope_key@));
            }
            if !crate::text::str_eq(self.active[i].as_str(), scope_key) {
                let ghost before = views(kept@);
                kept.push(self.active[i].clone());
                proof {
                    let now_k = views(kept@);
                    assert(now_k =~= before.push(ks[i as int]));
                    assert forall|a: int| 0 <= a < kept@.len() implies exists|j: int| 0 <= j < i + 1 && (#[trigger] views(kept@)[a]) == ks[j] by {
                        if a < before.len() {
                            assert(now_k[a] == before[a]);
                        } else {
                            assert(now_k[a] == ks[i as int]);
                        }
                    }
                    assert forall|a: int, c: int| 0 <= a < c < now_k.len() implies now_k[a] != now_k[c] by {
                        assert(now_k[a] == before[a]);
                        if c == before.len() {
                            let j = choose|j: int| 0 <= j < i && before[a] == ks[j];
                            assert(ks[j] != ks[i as int]);
                        } else {
                            assert(now_k[c] == before[c]);
                        }
                    }
                }
            }
            i = i + 1;
        }
        assert(ks.take(self.active.len() as int) =~= ks);
        self.active = kept;
    }
}

/// Whether one of the turns `ts` is running.
pub open spec fn has_running_turn(ts: Seq<TurnView>) -> bool {
    exists|k: int| 0 <= k < ts.len() && (#[trigger] ts[k]).status == "working"@
}

impl ShepherdQueueState {
    /// The queue of the turns `items`, active when one of them is running.
    pub fn of_items(items: Vec<ShepherdQueuedTurn>) -> (r: ShepherdQueueState)
        ensures
            r.items@ == items@,
            r.has_active_turn == has_running_turn(turn_views(items@)),
    {
        let ghost ts = turn_views(items@);
        let mut i: usize = 0;
        let mut active = false;
        while i < items.len()
            invariant_except_break
                !active,
            invariant
                i <= items.len(),
                ts == turn_views(items@),
                ts.len() == items.len(),
                forall|k: int| 0 <= k < i ==> (#[trigger] ts[k]).status != "working"@,
            ensures
                active ==> i < ts.len() && ts[i as int].status == "working"@,
                !active ==> i == ts.len(),
            decreases items.len() - i,
        {
            assert(ts[i as int] == items@[i as int]@);
            if str_eq(items[i].status.as_str(), "working") {
                active = true;
                break;
            }
            i = i + 1;
        }
        ShepherdQueueState { items, has_active_turn: active }
    }
}

/// The effort a scope speaks for, if it is an effort's.
pub open spec fn scope_effort(scope: ShepherdScope) -> Option<Seq<char>> {
    match scope {
        ShepherdScope::Effort { effort_id, .. } => Some(effort_id@),
        _ => None,
    }
}

/// Queues a user turn for `scope`, whose chunks and focus come as JSON, at
/// `now`, and makes sure the scope's queue processor runs. A branch scope
/// takes no durable message and changes nothing. Otherwise the turn joins
/// the scope's queue, the processor set gains the scope when it did not run,
/// and the answer tells how many turns of the scope now wait and which
/// effort, if any, the scope speaks for.
pub fn enqueue_shepherd_message_for_scope(
    store: &mut ShepherdChatStore,
    processors: &mut ScopeProcessors,
    scope: &ShepherdScope,
    chunks_json: &str,
    focus_json: Option<&str>,
    now: String,
) -> (r: Result<EnqueueShepherdMessageResponse, String>)
    requires
        turn_ids_increase(old(store).turn_list()),
        next_turn_id(old(store).turn_list()) <= i64::MAX,
        old(processors).wf(),
    ensures
        turn_ids_increase(final(store).turn_list()),
        final(processors).wf(),
        final(store).messages@ == old(store).messages@,
        final(store).efforts@ == old(store).efforts@,
        match queue_key(*scope) {
            None => (r matches Err(m) && m@ == "Branch scopes cannot accept durable user-facing messages"@)
                && final(store).turn_list() == old(store).turn_list()
                && final(processors).active@ == old(processors).active@,
            Some(k) => {
                let ids = storage_ids(*scope);
                let t = new_turn(next_turn_id(old(store).turn_list()), ids.0, ids.1, chunks_json@,
                    match focus_json { Some(f) => Some(f@), None => None }, now@);
                let after = old(store).turn_list().push(t);
                &&& final(store).turn_list() == after
                &&& if views(old(processors).active@).contains(k) {
                    final(processors).active@ == old(processors).active@
                } else {
                    views(final(processors).active@) == views(old(processors).active@).push(k)
                }
                &&& r matches Ok(resp)
                &&& resp.queued
                &&& resp.queue_depth == after.filter(turn_waiting(ids.0, ids.1)).len()
                &&& opt_view(resp.effort_id) == scope_effort(*scope)
            },
        },
{
    if let ShepherdScope::Branch { .. } = scope {
        return Err("Branch scopes cannot accept durable user-facing messages".to_owned());
    }
    let (project_id, runtime_name) = scope_storage_ids(scope);
    let rn: Option<&str> = match &runtime_name {
        Some(s) => Some(s.as_str()),
        None => None,
    };
    let _ = store.enqueue_turn(project_id, rn, chunks_json, focus_json, now);
    let _ = processors.kick(scope);
    let queue_depth = store.count_waiting_turns(project_id, rn);
    let effort_id = match scope {
        ShepherdScope::Effort { effort_id, .. } => Some(effort_id.clone()),
        _ => None,
    };
    Ok(EnqueueShepherdMessageResponse { queued: true, queue_depth, effort_id })
}

/// The note that hands a private branch's conclusion to the turn.
pub open spec fn branch_note(conclusion: Seq<char>) -> Seq<char> {
    "Private branch conclusion for this turn. Use it as internal reasoning context only. Do not mention branching, hidden analysis, or this note to the user.\n\n"@
        + conclusion
}

/// The texts a turn is given: the private branch's conclusion, when there
/// is one, as a note for the shepherd alone, then the user's words.
pub fn turn_texts(branch_conclusion: Option<&str>, user_text: &str) -> (r: Vec<String>)
    ensures
        views(r@) == match branch_conclusion {
            Some(c) => seq![branch_note(c@), user_text@],
            None => seq![user_text@],
        },
{
    let mut out: Vec<String> = Vec::new();
    if let Some(c) = branch_conclusion {
        out.push(concat(
            "Private branch conclusion for this turn. Use it as internal reasoning context only. Do not mention branching, hidden analysis, or this note to the user.\n\n",
            c,
        ));
    }
    out.push(user_text.to_owned());
    assert(views(out@) =~= match branch_conclusion {
        Some(c) => seq![branch_note(c@), user_text@],
        None => seq![user_text@],
    });
    out
}

/// The ids under which `count` images are handed to a turn: the prefix
/// followed by 1, 2, and so on (`image-` for a turn, `branch-image-` for
/// its private branch).
pub fn image_ref_ids(prefix: &str, count: usize) -> (r: Vec<String>)
    requires
        count < u64::MAX,
    ensures
        r@.len() == count,
        forall|i: int| 0 <= i < count ==> (#[trigger] r@[i])@ == prefix@ + decimal((i + 1) as nat),
{
    let mut out: Vec<String> = Vec::new();
    let mut i: usize = 0;
    while i < count
        invariant
            i <= count,
            count < u64::MAX,
            out@.len() == i,
            forall|k: int| 0 <= k < i ==> (#[trigger] out@[k])@ == prefix@ + decimal((k + 1) as nat),
        decreases count - i,
    {
        let n = to_decimal((i as u64) + 1);
        out.push(concat(prefix, n.as_str()));
        i = i + 1;
    }
    out
}

/// A call of a tool as a finished turn reports it: its call id when the
/// runtime gave one, the title and kind it is shown under, whether it
/// succeeded, and its arguments and result as JSON text (none where they
/// could not be written).
#[derive(Debug)]
pub struct ToolCallRecord {
    pub call_id: Option<String>,
    pub title: String,
    pub kind: String,
    pub success: bool,
    pub args_json: Option<String>,
    pub result_json: Option<String>,
}

/// Whether `c` is the chunk that shows `rec`, the call at place `idx` of
/// its turn: its id is the call id, else `tool-` and the call's number
/// counted from 1; its status is `completed` or `failed`.
pub open spec fn shows_call(c: ShepherdMessageChunk, rec: ToolCallRecord, idx: int) -> bool {
    c matches ShepherdMessageChunk::Tool { id, title, kind, status, input, output }
        && id@ == match rec.call_id {
            Some(x) => x@,
            None => "tool-"@ + decimal((idx + 1) as nat),
        }
        && title@ == rec.title@
        && kind@ == rec.kind@
        && status@ == if rec.success { "completed"@ } else { "failed"@ }
        && opt_view(input) == opt_view(rec.args_json)
        && opt_view(output) == opt_view(rec.result_json)
}

/// The chunks that show a turn's tool calls, one per call, in order.
pub fn tool_chunks_from_records(records: &Vec<ToolCallRecord>) -> (r: Vec<ShepherdMessageChunk>)
    requires
        records.len() < u64::MAX,
    ensures
        r@.len() == records@.len(),
        forall|i: int| 0 <= i < r@.len() ==> shows_call(#[trigger] r@[i], records@[i], i),
{
    let mut out: Vec<ShepherdMessageChunk> = Vec::new();
    let mut i: usize = 0;
    while i < records.len()
        invariant
            i <= records.len(),
            records.len() < u64::MAX,
            out@.len() == i,
            forall|k: int| 0 <= k < i ==> shows_call(#[trigger] out@[k], records@[k], k),
        decreases records.len() - i,
    {
        let rec = &records[i];
        let id = match &rec.call_id {
            Some(c) => c.clone(),
            None => {
                let n = to_decimal((i as u64) + 1);
                concat("tool-", n.as_str())
            },
        };
        let status = if rec.success { "completed".to_owned() } else { "failed".to_owned() };
        out.push(ShepherdMessageChunk::Tool {
            id,
            title: rec.title.clone(),
            kind: rec.kind.clone(),
            status,
            input: clone_opt(&rec.args_json),
            output: clone_opt(&rec.result_json),
        });
        i = i + 1;
    }
    out
}

/// What a turn answers the user: its final text, when it is not blank,
/// then the calls of tools it made; a turn that leaves neither is an error.
pub fn assistant_reply(final_text: String, tool_chunks: Vec<ShepherdMessageChunk>) -> (r: Result<Vec<ShepherdMessageChunk>, String>)
    ensures
        ({
            let reply = if trimmed(final_text@).len() > 0 {
                seq![ShepherdMessageChunk::Text { content: final_text }] + tool_chunks@
            } else {
                tool_chunks@
            };
            if reply.len() > 0 {
                r matches Ok(v) && v@ == reply
            } else {
                r matches Err(m) && m@ == "Shepherd returned no user-visible output for this turn."@
            }
        }),
{
    let t = trim(final_text.as_str());
    let mut out: Vec<ShepherdMessageChunk> = Vec::new();
    if !t.as_str().is_empty() {
        out.push(ShepherdMessageChunk::Text { content: final_text });
    }
    let mut tools = tool_chunks;
    out.append(&mut tools);
    if out.len() == 0 {
        return Err("Shepherd returned no user-visible output for this turn.".to_owned());
    }
    Ok(out)
}

/// The note an effort keeps about the outcome of a turn: the summary of
/// its answer, or the error.
pub open spec fn outcome_note(outcome: Result<Vec<ShepherdMessageChunk>, String>) -> Seq<char> {
    match outcome {
        Ok(chunks) => chunks_summary(chunks@),
        Err(e) => e@,
    }
}

/// What the store records once the queued turn `turn_id` of `scope` ran
/// with `outcome`, at `now`: an effort's summary and status follow the
/// outcome (`active` after an answer, `failed` after an error), and the
/// turn is done, or failed with the error.
pub fn settle_queued_turn(
    store: &mut ShepherdChatStore,
    scope: &ShepherdScope,
    turn_id: i64,
    outcome: &Result<Vec<ShepherdMessageChunk>, String>,
    now: String,
)
    requires
        turn_ids_increase(old(store).turn_list()),
        efforts_wf(old(store).effort_list()),
    ensures
        turn_ids_increase(final(store).turn_list()),
        efforts_wf(final(store).effort_list()),
        final(store).messages@ == old(store).messages@,
        final(store).effort_list() == match scope {
            ShepherdScope::Effort { effort_id, .. } => old(store).effort_list().map_values(|e: EffortView| if e.id == effort_id@ {
                effort_updated(
                    e,
                    Some(outcome_note(*outcome)),
                    Some(if outcome is Ok { "active"@ } else { "failed"@ }),
                    now@,
                )
            } else {
                e
            }),
            _ => old(store).effort_list(),
        },
        final(store).turn_list() == old(store).turn_list().map_values(|t: TurnView| if t.id == turn_id {
            finished_turn(t, match outcome {
                Ok(_) => None,
                Err(e) => Some(e@),
            }, now@)
        } else {
            t
        }),
{
    if let ShepherdScope::Effort { effort_id, .. } = scope {
        let (note, status) = match outcome {
            Ok(chunks) => (result_summary_from_chunks(chunks.as_slice()), "active"),
            Err(e) => (e.clone(), "failed"),
        };
        let _ = store.update_effort(effort_id.as_str(), Some(note.as_str()), Some(status), now.clone());
    }
    match outcome {
        Ok(_) => {
            let _ = store.complete_turn(turn_id, now);
        },
        Err(e) => {
            let _ = store.fail_turn(turn_id, e.as_str(), now);
        },
    }
}

/// What starting a project sync records when its work item is not running
/// yet: the event on the item, and the focused effort that shows the sync,
/// with its first note.
#[derive(Debug)]
pub struct SyncStartPlan {
    /// Who records the event: its kind and name.
    pub event_actor_kind: String,
    pub event_actor: String,
    pub event_kind: String,
    pub event_summary: String,
    pub event_details: String,
    pub effort_title: String,
    pub effort_summary: String,
    /// The effort is started in focus.
    pub effort_focused: bool,
    /// The assistant's first note in the effort's chat.
    pub effort_note: String,
}

/// How a request to start a project sync goes.
#[derive(Debug)]
pub enum SyncStart {
    /// The sync's work item is already working: nothing is started.
    AlreadyRunning,
    /// The work item is started, with what the plan records.
    Start(SyncStartPlan),
}

/// The note that opens a sync effort's chat.
pub open spec fn sync_start_note() -> Seq<char> {
    "Project sync started.\n\nI\u{2019}m surveying the workspace and assembling the current project picture. Progress and conclusions will appear here."@
}

/// How starting a project sync goes for a sync work item of status
/// `item_status`: a working item is left running; any other is started, with
/// a `sync_started` event by the main channel and a focused "Project sync"
/// effort whose chat opens with `sync_start_note`.
pub fn plan_sync_start(item_status: &str) -> (r: SyncStart)
    ensures
        item_status@ == "working"@ <==> r is AlreadyRunning,
        r matches SyncStart::Start(p) ==> {
            &&& p.event_actor_kind@ == "channel"@
            &&& p.event_actor@ == "main"@
            &&& p.event_kind@ == "sync_started"@
            &&& p.event_summary@ == "Project sync started."@
            &&& p.event_details@ == "The backend is surveying the project and updating Hirsel in the background."@
            &&& p.effort_title@ == "Project sync"@
            &&& p.effort_summary@ == "Surveying the codebase and building the project picture."@
            &&& p.effort_focused
            &&& p.effort_note@ == sync_start_note()
        },
{
    if str_eq(item_status, "working") {
        return SyncStart::AlreadyRunning;
    }
    SyncStart::Start(SyncStartPlan {
        event_actor_kind: "channel".to_owned(),
        event_actor: "main".to_owned(),
        event_kind: "sync_started".to_owned(),
        event_summary: "Project sync started.".to_owned(),
        event_details: "The backend is surveying the project and updating Hirsel in the background.".to_owned(),
        effort_title: "Project sync".to_owned(),
        effort_summary: "Surveying the codebase and building the project picture.".to_owned(),
        effort_focused: true,
        effort_note: "Project sync started.\n\nI\u{2019}m surveying the workspace and assembling the current project picture. Progress and conclusions will appear here.".to_owned(),
    })
}

/// What follows a detached project sync: the effort's summary, status and
/// chat note (when the sync runs for an effort), and the sync work item's
/// terminal status, summary and details.
#[derive(Debug)]
pub struct SyncFinish {
    pub effort_summary: String,
    pub effort_status: String,
    pub effort_note: String,
    pub item_status: String,
    pub item_summary: String,
    pub item_details: Option<String>,
}

/// The note an effort gets when its sync ended with `outcome`.
pub open spec fn sync_note(outcome: Result<Option<String>, String>) -> Seq<char> {
    match outcome {
        Ok(Some(c)) => if trimmed(c@).len() > 0 {
            "Project sync completed.\n\n"@ + trimmed(c@)
        } else {
            "Project sync completed."@
        },
        Ok(None) => "Project sync completed."@,
        Err(e) => "Project sync failed.\n\n"@ + trimmed(e@),
    }
}

/// What a project sync that ended with `outcome` (its conclusion, if any,
/// or its error) leads to: a completed sync leaves the effort done with the
/// conclusion cut to 240 characters as its summary, a failed one leaves it
/// failed with the error; the work item is done or failed alike.
pub fn plan_sync_finish(outcome: &Result<Option<String>, String>) -> (r: SyncFinish)
    ensures
        r.effort_note@ == sync_note(*outcome),
        match outcome {
            Ok(c) => {
                &&& r.effort_summary@ == match c {
                    Some(t) => truncated_note(t@, 240),
                    None => "Project sync completed."@,
                }
                &&& r.effort_status@ == "done"@
                &&& r.item_status@ == "done"@
                &&& r.item_summary@ == "Project sync completed."@
                &&& opt_view(r.item_details) == opt_view(*c)
            },
            Err(e) => {
                &&& r.effort_summary@ == e@
                &&& r.effort_status@ == "failed"@
                &&& r.item_status@ == "failed"@
                &&& r.item_summary@ == "Project sync failed."@
                &&& opt_view(r.item_details) == Some(e@)
            },
        },
{
    match outcome {
        Ok(c) => {
            let summary = match c {
                Some(t) => truncate_internal_note(t.as_str(), 240),
                None => "Project sync completed.".to_owned(),
            };
            let note = match c {
                Some(t) => {
                    let body = trim(t.as_str());
                    if body.unicode_len() > 0 {
                        concat("Project sync completed.\n\n", body.as_str())
                    } else {
                        "Project sync completed.".to_owned()
                    }
                },
                None => "Project sync completed.".to_owned(),
            };
            SyncFinish {
                effort_summary: summary,
                effort_status: "done".to_owned(),
                effort_note: note,
                item_status: "done".to_owned(),
                item_summary: "Project sync completed.".to_owned(),
                item_details: clone_opt(c),
            }
        },
        Err(e) => {
            let body = trim(e.as_str());
            SyncFinish {
                effort_summary: e.clone(),
                effort_status: "failed".to_owned(),
                effort_note: concat("Project sync failed.\n\n", body.as_str()),
                item_status: "failed".to_owned(),
                item_summary: "Project sync failed.".to_owned(),
                item_details: Some(e.clone()),
            }
        },
    }
}

} // verus!
