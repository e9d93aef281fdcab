//! The shepherd's chat store: chat messages of each scope, the durable queue
//! of turns waiting for the shepherd, and the efforts it follows within a
//! project, with at most one effort of a project in focus. The store keeps
//! its records in memory; the caller persists them.

use vstd::prelude::*;
use crate::run_state::{clone_opt, opt_view};
use crate::text::{concat, str_eq, text_less, text_lt, lemma_text_order};

verus! {

/// A stored chat message of a scope.
#[derive(Debug)]
pub struct ShepherdChatMessage {
    pub id: i64,
    pub project_id: Option<i64>,
    pub runtime_name: Option<String>,
    pub role: String,
    pub timestamp: String,
    pub chunks_json: String,
}

/// A turn waiting in, or taken from, a scope's queue.
#[derive(Debug)]
pub struct ShepherdQueuedTurn {
    pub id: i64,
    pub project_id: Option<i64>,
    pub runtime_name: Option<String>,
    pub chunks_json: String,
    pub focus_json: Option<String>,
    /// `pending`, `working`, `done` or `failed`.
    pub status: String,
    pub error: Option<String>,
    pub created_at: String,
    pub started_at: Option<String>,
    pub finished_at: Option<String>,
}

/// A line of work the shepherd follows within a project's route.
#[derive(Debug)]
pub struct ShepherdEffort {
    pub id: String,
    pub project_id: i64,
    pub route_id: i64,
    pub work_item_id: String,
    pub title: String,
    pub summary: String,
    pub status: String,
    pub focused: bool,
    pub created_at: String,
    pub updated_at: String,
    pub last_activity_at: String,
    pub archived_at: Option<String>,
}

/// The runtime name under which a project's own chat is kept.
pub const PROJECT_CHAT_RUN_NAME: &'static str = "__project__";

/// The runtime name under which the chat of effort `effort_id` is kept.
pub open spec fn effort_runtime(effort_id: Seq<char>) -> Seq<char> {
    "__effort__:"@ + effort_id
}

impl ShepherdChatStore {
    /// The runtime name of a project's own chat.
    pub fn project_chat_run_name() -> (r: &'static str)
        ensures
            r@ == "__project__"@,
    {
        proof {
            reveal_strlit("__project__");
        }
        "__project__"
    }

    /// The runtime name of the chat of effort `effort_id`.
    pub fn effort_runtime_name(effort_id: &str) -> (r: String)
        ensures
            r@ == effort_runtime(effort_id@),
    {
        concat("__effort__:", effort_id)
    }
}

/// The contents of a chat message.
pub struct MessageView {
    pub id: i64,
    pub project_id: Option<i64>,
    pub runtime_name: Option<Seq<char>>,
    pub role: Seq<char>,
    pub timestamp: Seq<char>,
    pub chunks_json: Seq<char>,
}

impl View for ShepherdChatMessage {
    type V = MessageView;

    open spec fn view(&self) -> MessageView {
        MessageView {
            id: self.id,
            project_id: self.project_id,
            runtime_name: opt_view(self.runtime_name),
            role: self.role@,
            timestamp: self.timestamp@,
            chunks_json: self.chunks_json@,
        }
    }
}

impl Clone for ShepherdChatMessage {
    fn clone(&self) -> (r: Self)
        ensures
            r@ == self@,
    {
        ShepherdChatMessage {
            id: self.id,
            project_id: self.project_id,
            runtime_name: clone_opt(&self.runtime_name),
            role: self.role.clone(),
            timestamp: self.timestamp.clone(),
            chunks_json: self.chunks_json.clone(),
        }
    }
}

/// The contents of a sequence of messages.
pub open spec fn message_views(ms: Seq<ShepherdChatMessage>) -> Seq<MessageView> {
    ms.map_values(|m: ShepherdChatMessage| m@)
}

/// Whether a message belongs to the scope of project `project_id` and
/// runtime `runtime_name` (both compared as the store compares them, an
/// absent value matching only an absent value).
pub open spec fn message_in_scope(project_id: Option<i64>, runtime_name: Option<Seq<char>>) -> spec_fn(MessageView) -> bool {
    |m: MessageView| m.project_id == project_id && m.runtime_name == runtime_name
}

/// Messages in order of time: no message comes before an earlier one.
pub open spec fn by_time(ms: Seq<MessageView>) -> bool {
    forall|i: int, j: int| 0 <= i <= j < ms.len() ==> !text_lt((#[trigger] ms[j]).timestamp, (#[trigger] ms[i]).timestamp)
}

/// `out` is what a read of the latest `limit` messages of a scope returns:
/// the scope's messages put in order of time, of which the last `limit`.
pub open spec fn latest_messages(scope: Seq<MessageView>, limit: nat, out: Seq<MessageView>) -> bool {
    exists|all: Seq<MessageView>| #![trigger all.to_multiset()]
        all.to_multiset() == scope.to_multiset() && by_time(all)
            && out == all.skip(all.len() - if limit < all.len() { limit as int } else { all.len() as int })
}

/// A message saved for a scope at a time later than that of every message
/// the scope holds is the last one a read of the scope returns, whatever
/// its limit, as long as it asks for one message at least.
pub proof fn lemma_saved_message_is_read_last(
    before: Seq<MessageView>,
    m: MessageView,
    project_id: Option<i64>,
    runtime_name: Option<Seq<char>>,
    limit: nat,
    out: Seq<MessageView>,
)
    requires
        message_in_scope(project_id, runtime_name)(m),
        forall|k: int| 0 <= k < before.len() && message_in_scope(project_id, runtime_name)(#[trigger] before[k])
            ==> text_lt(before[k].timestamp, m.timestamp),
        limit >= 1,
        latest_messages(before.push(m).filter(message_in_scope(project_id, runtime_name)), limit, out),
    ensures
        out.len() >= 1,
        out.last() == m,
{
    broadcast use vstd::seq_lib::group_to_multiset_ensures;
    let pred = message_in_scope(project_id, runtime_name);
    let f = before.filter(pred);
    before.lemma_filter_push(m, pred);
    assert(before.push(m).filter(pred) == f.push(m));
    let all = choose|all: Seq<MessageView>| #![trigger all.to_multiset()]
        all.to_multiset() == f.push(m).to_multiset() && by_time(all)
            && out == all.skip(all.len() - if limit < all.len() { limit as int } else { all.len() as int });
    assert(all.len() == f.len() + 1) by {
        assert(all.to_multiset().len() == f.push(m).to_multiset().len());
    }
    let n = all.len() as int;
    let x = all[n - 1];
    assert(out.last() == x);
    assert(all.contains(x));
    assert(f.push(m).to_multiset().count(x) > 0);
    assert(f.push(m)[f.len() as int] == m);
    assert(f.push(m).contains(m));
    assert(all.to_multiset().count(m) > 0);
    assert(all.contains(m));
    let p = choose|p: int| 0 <= p < n && all[p] == m;
    if x != m {
        assert(f.push(m).contains(x));
        let q = choose|q: int| 0 <= q < f.len() + 1 && f.push(m)[q] == x;
        assert(q < f.len());
        assert(f[q] == x);
        before.lemma_filter_pred(pred, q);
        assert(f.contains(x));
        before.lemma_filter_contains_rev(pred, x);
        let k = choose|k: int| 0 <= k < before.len() && before[k] == x;
        assert(pred(before[k]));
        assert(text_lt(x.timestamp, m.timestamp));
        assert(!text_lt(all[n - 1].timestamp, all[p].timestamp));
    }
}

/// Puts messages in order of time.
fn sort_messages_by_time(ms: Vec<ShepherdChatMessage>) -> (out: Vec<ShepherdChatMessage>)
    ensures
        by_time(message_views(out@)),
        message_views(out@).to_multiset() == message_views(ms@).to_multiset(),
{
    let ghost src = message_views(ms@);
    let mut out: Vec<ShepherdChatMessage> = Vec::new();
    let mut i: usize = 0;
    proof {
        assert(message_views(out@) =~= Seq::<MessageView>::empty());
        assert(src.take(0) =~= Seq::<MessageView>::empty());
    }
    while i < ms.len()
        invariant
            i <= ms.len(),
            src == message_views(ms@),
            src.len() == ms.len(),
            by_time(message_views(out@)),
            message_views(out@).to_multiset() == src.take(i as int).to_multiset(),
        decreases ms.len() - i,
    {
        let x = ms[i].clone();
        assert(x@ == src[i as int]);
        let mut k: usize = 0;
        while k < out.len() && !text_less(x.timestamp.as_str(), out[k].timestamp.as_str())
            invariant
                k <= out.len(),
                forall|j: int| 0 <= j < k ==> !text_lt(x@.timestamp, (#[trigger] message_views(out@)[j]).timestamp),
            decreases out.len() - k,
        {
            assert(message_views(out@)[k as int] == out@[k as int]@);
            k = k + 1;
        }
        let ghost before = out@;
        let ghost bs = message_views(before);
        proof {
            if k < out.len() {
                assert(bs[k as int] == out@[k as int]@);
                assert(text_lt(x@.timestamp, bs[k as int].timestamp));
            }
        }
        out.insert(k, x);
        proof {
            let vs = message_views(out@);
            assert(vs =~= bs.insert(k as int, src[i as int]));
            vstd::seq_lib::to_multiset_insert(bs, k as int, src[i as int]);
            assert(src.take(i as int + 1) =~= src.take(i as int).push(src[i as int]));
            vstd::seq_lib::to_multiset_build(src.take(i as int), src[i as int]);
            let xt = src[i as int].timestamp;
            assert forall|a: int, c: int| 0 <= a <= c < vs.len() implies !text_lt((#[trigger] vs[c]).timestamp, (#[trigger] vs[a]).timestamp) by {
                if a < k && c < k {
                    assert(vs[a] == bs[a] && vs[c] == bs[c]);
                } else if a < k && c == k {
                    assert(vs[a] == bs[a]);
                } else if a < k {
                    assert(vs[a] == bs[a] && vs[c] == bs[c - 1]);
                } else if a == k && c == k {
                    lemma_text_order(xt, xt, xt);
                } else if a == k {
                    assert(vs[c] == bs[c - 1]);
                    lemma_text_order(bs[c - 1].timestamp, xt, bs[k as int].timestamp);
                } else {
                    assert(vs[a] == bs[a - 1] && vs[c] == bs[c - 1]);
                }
            }
        }
        i = i + 1;
    }
    assert(src.take(ms.len() as int) =~= src);
    out
}

/// The chat store.
#[derive(Debug)]
pub struct ShepherdChatStore {
    /// Messages in order of id.
    pub messages: Vec<ShepherdChatMessage>,
    /// Queued turns in order of id.
    pub queue: Vec<ShepherdQueuedTurn>,
    pub efforts: Vec<ShepherdEffort>,
}

/// Ids increase along the messages.
pub open spec fn message_ids_increase(ms: Seq<MessageView>) -> bool {
    forall|a: int, c: int| 0 <= a < c < ms.len() ==> (#[trigger] ms[a]).id < (#[trigger] ms[c]).id
}

/// The id the store gives the next message: one past the last.
pub open spec fn next_message_id(ms: Seq<MessageView>) -> int {
    if ms.len() == 0 {
        1
    } else {
        ms.last().id + 1
    }
}

/// A message kept for the scope of `project_id` and `runtime_name`.
pub open spec fn stored_message(
    id: int,
    project_id: Option<i64>,
    runtime_name: Option<Seq<char>>,
    role: Seq<char>,
    chunks_json: Seq<char>,
    now: Seq<char>,
) -> MessageView {
    MessageView { id: id as i64, project_id, runtime_name, role, timestamp: now, chunks_json }
}

/// Whether a message lies outside the scope of `project_id` and `runtime_name`.
pub open spec fn message_off_scope(project_id: Option<i64>, runtime_name: Option<Seq<char>>) -> spec_fn(MessageView) -> bool {
    |m: MessageView| !(m.project_id == project_id && m.runtime_name == runtime_name)
}

impl ShepherdChatStore {
    /// The messages of the store.
    pub open spec fn message_list(&self) -> Seq<MessageView> {
        message_views(self.messages@)
    }

    /// An empty store.
    pub fn open() -> (r: ShepherdChatStore)
        ensures
            r.messages@.len() == 0,
            r.queue@.len() == 0,
            r.efforts@.len() == 0,
    {
        ShepherdChatStore { messages: Vec::new(), queue: Vec::new(), efforts: Vec::new() }
    }

    /// Keeps a message of `role` for the scope of `project_id` and
    /// `runtime_name`, at `now`, and returns its id.
    pub fn save_message_with_project(
        &mut self,
        project_id: Option<i64>,
        runtime_name: Option<&str>,
        role: &str,
        chunks_json: &str,
        now: String,
    ) -> (r: i64)
        requires
            message_ids_increase(old(self).message_list()),
            next_message_id(old(self).message_list()) <= i64::MAX,
        ensures
            message_ids_increase(final(self).message_list()),
            r == next_message_id(old(self).message_list()),
            final(self).message_list() == old(self).message_list().push(stored_message(
                r as int,
                project_id,
                match runtime_name { Some(s) => Some(s@), None => None },
                role@,
                chunks_json@,
                now@,
            )),
            final(self).queue@ == old(self).queue@,
            final(self).efforts@ == old(self).efforts@,
    {
        let id: i64 = if self.messages.len() == 0 {
            1
        } else {
            self.messages[self.messages.len() - 1].id + 1
        };
        let ghost before = self.message_list();
        let m = ShepherdChatMessage {
            id,
            project_id,
            runtime_name: match runtime_name {
                Some(s) => Some(s.to_owned()),
                None => None,
            },
            role: role.to_owned(),
            timestamp: now,
            chunks_json: chunks_json.to_owned(),
        };
        self.messages.push(m);
        proof {
            let ms = self.message_list();
            assert(ms =~= before.push(self.messages@[self.messages.len() - 1]@));
            assert forall|a: int, c: int| 0 <= a < c < ms.len() implies (#[trigger] ms[a]).id < (#[trigger] ms[c]).id by {
                if c == before.len() {
                    assert(ms[a] == before[a]);
                    assert(before[a].id <= before.last().id);
                } else {
                    assert(ms[a] == before[a] && ms[c] == before[c]);
                }
            }
        }
        id
    }

    /// Keeps a message outside any project.
    pub fn save_message(&mut self, runtime_name: Option<&str>, role: &str, chunks_json: &str, now: String) -> (r: i64)
        requires
            message_ids_increase(old(self).message_list()),
            next_message_id(old(self).message_list()) <= i64::MAX,
        ensures
            message_ids_increase(final(self).message_list()),
            r == next_message_id(old(self).message_list()),
            final(self).message_list() == old(self).message_list().push(stored_message(
                r as int,
                None,
                match runtime_name { Some(s) => Some(s@), None => None },
                role@,
                chunks_json@,
                now@,
            )),
            final(self).queue@ == old(self).queue@,
            final(self).efforts@ == old(self).efforts@,
    {
        self.save_message_with_project(None, runtime_name, role, chunks_json, now)
    }

    /// The latest `limit` messages of the scope of `project_id` and
    /// `runtime_name`, oldest first.
    pub fn get_scope_messages(&self, project_id: Option<i64>, runtime_name: Option<&str>, limit: usize) -> (r: Vec<ShepherdChatMessage>)
        ensures
            latest_messages(
                self.message_list().filter(message_in_scope(project_id, match runtime_name { Some(s) => Some(s@), None => None })),
                limit as nat,
                message_views(r@),
            ),
    {
        let ghost rn = match runtime_name { Some(s) => Some(s@), None => None };
        let ghost all = self.message_list();
        let mut scoped: Vec<ShepherdChatMessage> = Vec::new();
        let mut i: usize = 0;
        proof {
            reveal(Seq::filter);
            assert(all.take(0) =~= Seq::<MessageView>::empty());
            assert(all.take(0).filter(message_in_scope(project_id, rn)) =~= Seq::<MessageView>::empty());
            assert(message_views(scoped@) =~= Seq::<MessageView>::empty());
        }
        while i < self.messages.len()
            invariant
                i <= self.messages.len(),
                all == self.message_list(),
                all.len() == self.messages.len(),
                rn == match runtime_name { Some(s) => Some(s@), None => None },
                message_views(scoped@) == all.take(i as int).filter(message_in_scope(project_id, rn)),
            decreases self.messages.len() - i,
        {
            assert(all[i as int] == self.messages@[i as int]@);
            assert(all.take(i as int + 1) =~= all.take(i as int).push(all[i as int]));
            proof {
                all.take(i as int).lemma_filter_push(all[i as int], message_in_scope(project_id, rn));
            }
            let same_runtime = match (&self.messages[i].runtime_name, runtime_name) {
                (Some(a), Some(b)) => str_eq(a.as_str(), b),
                (None, None) => true,
                _ => false,
            };
            if self.messages[i].project_id == project_id && same_runtime {
                let ghost before = scoped@;
                scoped.push(self.messages[i].clone());
                assert(message_views(scoped@) =~= message_views(before).push(all[i as int]));
            }
            i = i + 1;
        }
        assert(all.take(all.len() as int) =~= all);
        let sorted = sort_messages_by_time(scoped);
        let n = sorted.len();
        let keep = if limit < n { limit } else { n };
        let mut out: Vec<ShepherdChatMessage> = Vec::new();
        let mut j: usize = n - keep;
        let ghost sv = message_views(sorted@);
        assert(sv.skip((n - keep) as int).take(0) =~= Seq::<MessageView>::empty());
        assert(message_views(out@) =~= Seq::<MessageView>::empty());
        while j < n
            invariant
                n == sorted.len(),
                keep <= n,
                n - keep <= j <= n,
                sv == message_views(sorted@),
                message_views(out@) == sv.subrange((n - keep) as int, j as int),
            decreases n - j,
        {
            let ghost before = out@;
            let c = sorted[j].clone();
            out.push(c);
            proof {
                assert(sv[j as int] == sorted@[j as int]@);
                assert(message_views(out@) =~= message_views(before).push(sv[j as int]));
                assert(message_views(out@) =~= sv.subrange((n - keep) as int, j as int + 1));
            }
            j = j + 1;
        }
        proof {
            assert(message_views(out@) =~= sv.skip(sv.len() - keep as int));
            assert(sv.len() - (if limit < sv.len() { limit as int } else { sv.len() as int }) == sv.len() - keep as int);
        }
        out
    }

    /// Every message kept outside any project for the runtime `runtime_name`.
    pub fn get_messages(&self, runtime_name: Option<&str>) -> (r: Vec<ShepherdChatMessage>)
        ensures
            latest_messages(
                self.message_list().filter(message_in_scope(None, match runtime_name { Some(s) => Some(s@), None => None })),
                (i64::MAX as usize) as nat,
                message_views(r@),
            ),
    {
        let limit: usize = i64::MAX as usize;
        self.get_scope_messages(None, runtime_name, limit)
    }

    /// Drops the messages of the scope of `project_id` and `runtime_name`.
    pub fn clear_scope_messages(&mut self, project_id: Option<i64>, runtime_name: Option<&str>)
        requires
            message_ids_increase(old(self).message_list()),
        ensures
            message_ids_increase(final(self).message_list()),
            final(self).message_list() == old(self).message_list().filter(
                message_off_scope(project_id, match runtime_name { Some(s) => Some(s@), None => None }),
            ),
            final(self).queue@ == old(self).queue@,
            final(self).efforts@ == old(self).efforts@,
    {
        let ghost rn = match runtime_name { Some(s) => Some(s@), None => None };
        let ghost all = self.message_list();
        let mut kept: Vec<ShepherdChatMessage> = Vec::new();
        let mut i: usize = 0;
        proof {
            reveal(Seq::filter);
            assert(all.take(0) =~= Seq::<MessageView>::empty());
            assert(all.take(0).filter(message_off_scope(project_id, rn)) =~= Seq::<MessageView>::empty());
            assert(message_views(kept@) =~= Seq::<MessageView>::empty());
        }
        while i < self.messages.len()
            invariant
                i <= self.messages.len(),
                all == self.message_list(),
                all.len() == self.messages.len(),
                message_ids_increase(all),
                rn == match runtime_name { Some(s) => Some(s@), None => None },
                message_views(kept@) == all.take(i as int).filter(message_off_scope(project_id, rn)),
                message_ids_increase(message_views(kept@)),
                forall|a: int| 0 <= a < kept@.len() ==> exists|q: int| 0 <= q < i && (#[trigger] message_views(kept@)[a]) == all[q],
            decreases self.messages.len() - i,
        {
            assert(all[i as int] == self.messages@[i as int]@);
            assert(all.take(i as int + 1) =~= all.take(i as int).push(all[i as int]));
            proof {
                all.take(i as int).lemma_filter_push(all[i as int], message_off_scope(project_id, rn));
            }
            let same_runtime = match (&self.messages[i].runtime_name, runtime_name) {
                (Some(a), Some(b)) => str_eq(a.as_str(), b),
                (None, None) => true,
                _ => false,
            };
            if !(self.messages[i].project_id == project_id && same_runtime) {
                let ghost before = message_views(kept@);
                kept.push(self.messages[i].clone());
                proof {
                    let now_k = message_views(kept@);
                    assert(now_k =~= before.push(all[i as int]));
                    assert forall|a: int| 0 <= a < kept@.len() implies exists|q: int| 0 <= q < i + 1 && (#[trigger] message_views(kept@)[a]) == all[q] by {
                        if a < before.len() {
                            assert(now_k[a] == before[a]);
                        } else {
                            assert(now_k[a] == all[i as int]);
                        }
                    }
                    assert forall|a: int, c: int| 0 <= a < c < now_k.len() implies (#[trigger] now_k[a]).id < (#[trigger] now_k[c]).id by {
                        assert(now_k[a] == before[a]);
                        if c == before.len() {
                            let q = choose|q: int| 0 <= q < i && before[a] == all[q];
                            assert(all[q].id < all[i as int].id);
                        } else {
                            assert(now_k[c] == before[c]);
                        }
                    }
                }
            }
            i = i + 1;
        }
        assert(all.take(all.len() as int) =~= all);
        self.messages = kept;
    }
}

impl ShepherdChatStore {
    /// Drops the messages outside any project kept for `runtime_name`.
    pub fn clear_messages(&mut self, runtime_name: Option<&str>)
        requires
            message_ids_increase(old(self).message_list()),
        ensures
            message_ids_increase(final(self).message_list()),
            final(self).message_list() == old(self).message_list().filter(
                message_off_scope(None, match runtime_name { Some(s) => Some(s@), None => None }),
            ),
            final(self).queue@ == old(self).queue@,
            final(self).efforts@ == old(self).efforts@,
    {
        self.clear_scope_messages(None, runtime_name)
    }

    /// Keeps a message for the scope of `project_id` and `runtime_name`.
    pub fn save_scope_message(
        &mut self,
        project_id: Option<i64>,
        runtime_name: Option<&str>,
        role: &str,
        chunks_json: &str,
        now: String,
    ) -> (r: i64)
        requires
            message_ids_increase(old(self).message_list()),
            next_message_id(old(self).message_list()) <= i64::MAX,
        ensures
            message_ids_increase(final(self).message_list()),
            r == next_message_id(old(self).message_list()),
            final(self).message_list() == old(self).message_list().push(stored_message(
                r as int,
                project_id,
                match runtime_name { Some(s) => Some(s@), None => None },
                role@,
                chunks_json@,
                now@,
            )),
            final(self).queue@ == old(self).queue@,
            final(self).efforts@ == old(self).efforts@,
    {
        self.save_message_with_project(project_id, runtime_name, role, chunks_json, now)
    }

    /// Keeps a message of the project's own chat.
    pub fn save_project_message(&mut self, project_id: i64, role: &str, chunks_json: &str, now: String) -> (r: i64)
        requires
            message_ids_increase(old(self).message_list()),
            next_message_id(old(self).message_list()) <= i64::MAX,
        ensures
            message_ids_increase(final(self).message_list()),
            r == next_message_id(old(self).message_list()),
            final(self).message_list() == old(self).message_list().push(stored_message(
                r as int,
                Some(project_id),
                Some("__project__"@),
                role@,
                chunks_json@,
                now@,
            )),
            final(self).queue@ == old(self).queue@,
            final(self).efforts@ == old(self).efforts@,
    {
        self.save_message_with_project(Some(project_id), Some(ShepherdChatStore::project_chat_run_name()), role, chunks_json, now)
    }

    /// The latest `limit` messages of the project's own chat, oldest first.
    pub fn get_project_messages(&self, project_id: i64, limit: usize) -> (r: Vec<ShepherdChatMessage>)
        ensures
            latest_messages(
                self.message_list().filter(message_in_scope(Some(project_id), Some("__project__"@))),
                limit as nat,
                message_views(r@),
            ),
    {
        self.get_scope_messages(Some(project_id), Some(ShepherdChatStore::project_chat_run_name()), limit)
    }

    /// Drops the messages of the project's own chat.
    pub fn clear_project_history(&mut self, project_id: i64)
        requires
            message_ids_increase(old(self).message_list()),
        ensures
            message_ids_increase(final(self).message_list()),
            final(self).message_list() == old(self).message_list().filter(
                message_off_scope(Some(project_id), Some("__project__"@)),
            ),
            final(self).queue@ == old(self).queue@,
            final(self).efforts@ == old(self).efforts@,
    {
        self.clear_scope_messages(Some(project_id), Some(ShepherdChatStore::project_chat_run_name()))
    }

    /// Drops the messages of the project's own chat.
    pub fn clear_project_messages(&mut self, project_id: i64)
        requires
            message_ids_increase(old(self).message_list()),
        ensures
            message_ids_increase(final(self).message_list()),
            final(self).message_list() == old(self).message_list().filter(
                message_off_scope(Some(project_id), Some("__project__"@)),
            ),
            final(self).queue@ == old(self).queue@,
            final(self).efforts@ == old(self).efforts@,
    {
        self.clear_project_history(project_id)
    }
}

/// The contents of a queued turn.
pub struct TurnView {
    pub id: i64,
    pub project_id: Option<i64>,
    pub runtime_name: Option<Seq<char>>,
    pub chunks_json: Seq<char>,
    pub focus_json: Option<Seq<char>>,
    pub status: Seq<char>,
    pub error: Option<Seq<char>>,
    pub created_at: Seq<char>,
    pub started_at: Option<Seq<char>>,
    pub finished_at: Option<Seq<char>>,
}

impl View for ShepherdQueuedTurn {
    type V = TurnView;

    open spec fn view(&self) -> TurnView {
        TurnView {
            id: self.id,
            project_id: self.project_id,
            runtime_name: opt_view(self.runtime_name),
            chunks_json: self.chunks_json@,
            focus_json: opt_view(self.focus_json),
            status: self.status@,
            error: opt_view(self.error),
            created_at: self.created_at@,
            started_at: opt_view(self.started_at),
            finished_at: opt_view(self.finished_at),
        }
    }
}

impl Clone for ShepherdQueuedTurn {
    fn clone(&self) -> (r: Self)
        ensures
            r@ == self@,
    {
        ShepherdQueuedTurn {
            id: self.id,
            project_id: self.project_id,
            runtime_name: clone_opt(&self.runtime_name),
            chunks_json: self.chunks_json.clone(),
            focus_json: clone_opt(&self.focus_json),
            status: self.status.clone(),
            error: clone_opt(&self.error),
            created_at: self.created_at.clone(),
            started_at: clone_opt(&self.started_at),
            finished_at: clone_opt(&self.finished_at),
        }
    }
}

/// The contents of a sequence of turns.
pub open spec fn turn_views(ts: Seq<ShepherdQueuedTurn>) -> Seq<TurnView> {
    ts.map_values(|t: ShepherdQueuedTurn| t@)
}

/// Why a chat store operation failed.
#[derive(Debug)]
pub enum ShepherdChatError {
    /// The store refused the operation; the text says why.
    Database(String),
}

/// The store's answer when a record that must exist does not.
pub open spec fn no_rows() -> Seq<char> {
    "no rows returned by a query that expected to return at least one row"@
}

/// Whether turn `a` comes before turn `b` in the queue: created earlier, or
/// at the same time with a smaller id.
pub open spec fn turn_before(a: TurnView, b: TurnView) -> bool {
    text_lt(a.created_at, b.created_at) || (a.created_at == b.created_at && a.id < b.id)
}

/// Queue order is a strict order, total on turns with different ids.
pub proof fn lemma_turn_order(a: TurnView, b: TurnView, c: TurnView)
    ensures
        !turn_before(a, a),
        turn_before(a, b) ==> !turn_before(b, a),
        a.id != b.id ==> turn_before(a, b) || turn_before(b, a),
        turn_before(a, b) && turn_before(b, c) ==> turn_before(a, c),
{
    lemma_text_order(a.created_at, b.created_at, c.created_at);
    lemma_text_order(b.created_at, a.created_at, c.created_at);
    lemma_text_order(a.created_at, c.created_at, b.created_at);
}

/// Turns in queue order.
pub open spec fn in_queue_order(ts: Seq<TurnView>) -> bool {
    forall|i: int, j: int| 0 <= i <= j < ts.len() ==> !turn_before(#[trigger] ts[j], #[trigger] ts[i])
}

/// Whether a turn belongs to the scope of `project_id` and `runtime_name`.
pub open spec fn turn_in_scope(project_id: Option<i64>, runtime_name: Option<Seq<char>>) -> spec_fn(TurnView) -> bool {
    |t: TurnView| t.project_id == project_id && t.runtime_name == runtime_name
}

/// Whether a turn of the scope is shown in its queue: pending, working or
/// failed.
pub open spec fn turn_listed(project_id: Option<i64>, runtime_name: Option<Seq<char>>) -> spec_fn(TurnView) -> bool {
    |t: TurnView| t.project_id == project_id && t.runtime_name == runtime_name
        && (t.status == "pending"@ || t.status == "working"@ || t.status == "failed"@)
}

/// Whether a turn of the scope of `project_id` and `runtime_name` still waits.
pub open spec fn turn_waiting(project_id: Option<i64>, runtime_name: Option<Seq<char>>) -> spec_fn(TurnView) -> bool {
    |t: TurnView| t.project_id == project_id && t.runtime_name == runtime_name && t.status == "pending"@
}

/// Whether a turn lies outside the scope of `project_id` and `runtime_name`.
pub open spec fn turn_off_scope(project_id: Option<i64>, runtime_name: Option<Seq<char>>) -> spec_fn(TurnView) -> bool {
    |t: TurnView| !(t.project_id == project_id && t.runtime_name == runtime_name)
}

/// An optional name's text.
pub open spec fn name_view(o: Option<&str>) -> Option<Seq<char>> {
    match o {
        Some(s) => Some(s@),
        None => None,
    }
}

/// No turn of the scope is pending.
pub open spec fn no_pending(ts: Seq<TurnView>, project_id: Option<i64>, runtime_name: Option<Seq<char>>) -> bool {
    forall|k: int| 0 <= k < ts.len() ==> !(turn_in_scope(project_id, runtime_name)(#[trigger] ts[k]) && ts[k].status == "pending"@)
}

/// Whether the turn at position `k` is the next pending turn of the scope.
pub open spec fn next_pending(ts: Seq<TurnView>, project_id: Option<i64>, runtime_name: Option<Seq<char>>, k: int) -> bool {
    &&& 0 <= k < ts.len()
    &&& turn_in_scope(project_id, runtime_name)(ts[k])
    &&& ts[k].status == "pending"@
    &&& forall|q: int| 0 <= q < ts.len() && turn_in_scope(project_id, runtime_name)(#[trigger] ts[q])
        && ts[q].status == "pending"@ ==> !turn_before(ts[q], ts[k])
}

/// A turn queued in a scope where no turn waits is the one the scope's next
/// claim takes.
pub proof fn lemma_lone_queued_turn_is_claimed_next(
    ts: Seq<TurnView>,
    id: int,
    project_id: Option<i64>,
    runtime_name: Option<Seq<char>>,
    chunks_json: Seq<char>,
    focus_json: Option<Seq<char>>,
    now: Seq<char>,
    k: int,
)
    requires
        no_pending(ts, project_id, runtime_name),
    ensures
        next_pending(ts.push(new_turn(id, project_id, runtime_name, chunks_json, focus_json, now)), project_id, runtime_name, k)
            <==> k == ts.len(),
{
    let t = new_turn(id, project_id, runtime_name, chunks_json, focus_json, now);
    let us = ts.push(t);
    reveal_strlit("pending");
    lemma_turn_order(t, t, t);
    assert(us[ts.len() as int] == t);
    assert forall|q: int| 0 <= q < us.len() && turn_in_scope(project_id, runtime_name)(#[trigger] us[q])
        && us[q].status == "pending"@ implies q == ts.len() by {
        if q < ts.len() {
            assert(us[q] == ts[q]);
        }
    }
}

/// The turn `t` once the shepherd took it up at `now`.
pub open spec fn started_turn(t: TurnView, now: Seq<char>) -> TurnView {
    TurnView { status: "working"@, error: None, started_at: Some(now), finished_at: None, ..t }
}

/// The turn `t` once it finished at `now`, with `error` when it failed.
pub open spec fn finished_turn(t: TurnView, error: Option<Seq<char>>, now: Seq<char>) -> TurnView {
    match error {
        None => TurnView { status: "done"@, error: None, finished_at: Some(now), ..t },
        Some(e) => TurnView { status: "failed"@, error: Some(e), finished_at: Some(now), ..t },
    }
}

/// A new turn, pending.
pub open spec fn new_turn(
    id: int,
    project_id: Option<i64>,
    runtime_name: Option<Seq<char>>,
    chunks_json: Seq<char>,
    focus_json: Option<Seq<char>>,
    now: Seq<char>,
) -> TurnView {
    TurnView {
        id: id as i64,
        project_id,
        runtime_name,
        chunks_json,
        focus_json,
        status: "pending"@,
        error: None,
        created_at: now,
        started_at: None,
        finished_at: None,
    }
}

/// Ids increase along the queue.
pub open spec fn turn_ids_increase(ts: Seq<TurnView>) -> bool {
    forall|a: int, c: int| 0 <= a < c < ts.len() ==> (#[trigger] ts[a]).id < (#[trigger] ts[c]).id
}

/// The id of the next turn: one past the last.
pub open spec fn next_turn_id(ts: Seq<TurnView>) -> int {
    if ts.len() == 0 {
        1
    } else {
        ts.last().id + 1
    }
}

/// Whether the optional texts `a` and `b` are equal.
fn same_opt_text(a: &Option<String>, b: Option<&str>) -> (r: bool)
    ensures
        r == (opt_view(*a) == match b { Some(s) => Some(s@), None => None::<Seq<char>> }),
{
    match (a, b) {
        (Some(x), Some(y)) => str_eq(x.as_str(), y),
        (None, None) => true,
        _ => false,
    }
}

/// Whether turn `a` comes before turn `b` in the queue.
fn turn_precedes(a: &ShepherdQueuedTurn, b: &ShepherdQueuedTurn) -> (r: bool)
    ensures
        r == turn_before(a@, b@),
{
    if text_less(a.created_at.as_str(), b.created_at.as_str()) {
        return true;
    }
    str_eq(a.created_at.as_str(), b.created_at.as_str()) && a.id < b.id
}

impl ShepherdChatStore {
    /// The queued turns of the store.
    pub open spec fn turn_list(&self) -> Seq<TurnView> {
        turn_views(self.queue@)
    }

    /// Queues a turn for the scope of `project_id` and `runtime_name`, at
    /// `now`, and returns it.
    pub fn enqueue_turn(
        &mut self,
        project_id: Option<i64>,
        runtime_name: Option<&str>,
        chunks_json: &str,
        focus_json: Option<&str>,
        now: String,
    ) -> (r: Result<ShepherdQueuedTurn, ShepherdChatError>)
        requires
            turn_ids_increase(old(self).turn_list()),
            next_turn_id(old(self).turn_list()) <= i64::MAX,
        ensures
            turn_ids_increase(final(self).turn_list()),
            ({
                let t = new_turn(
                    next_turn_id(old(self).turn_list()),
                    project_id,
                    match runtime_name { Some(s) => Some(s@), None => None },
                    chunks_json@,
                    match focus_json { Some(s) => Some(s@), None => None },
                    now@,
                );
                &&& r matches Ok(x) && x@ == t
                &&& final(self).turn_list() == old(self).turn_list().push(t)
            }),
            final(self).messages@ == old(self).messages@,
            final(self).efforts@ == old(self).efforts@,
    {
        let id: i64 = if self.queue.len() == 0 {
            1
        } else {
            self.queue[self.queue.len() - 1].id + 1
        };
        let ghost before = self.turn_list();
        let t = ShepherdQueuedTurn {
            id,
            project_id,
            runtime_name: match runtime_name {
                Some(s) => Some(s.to_owned()),
                None => None,
            },
            chunks_json: chunks_json.to_owned(),
            focus_json: match focus_json {
                Some(s) => Some(s.to_owned()),
                None => None,
            },
            status: "pending".to_owned(),
            error: None,
            created_at: now,
            started_at: None,
            finished_at: None,
        };
        let out = t.clone();
        self.queue.push(t);
        proof {
            reveal_strlit("pending");
            let ts = self.turn_list();
            assert(ts =~= before.push(out@));
            assert forall|a: int, c: int| 0 <= a < c < ts.len() implies (#[trigger] ts[a]).id < (#[trigger] ts[c]).id by {
                if c == before.len() {
                    assert(ts[a] == before[a]);
                    assert(before[a].id <= before.last().id);
                } else {
                    assert(ts[a] == before[a] && ts[c] == before[c]);
                }
            }
        }
        Ok(out)
    }

    /// The position of the turn `id`, if it is queued.
    fn find_turn(&self, id: i64) -> (r: Option<usize>)
        ensures
            match r {
                Some(k) => k < self.queue.len() && self.turn_list()[k as int].id == id,
                None => forall|k: int| 0 <= k < self.turn_list().len() ==> (#[trigger] self.turn_list()[k]).id != id,
            },
    {
        let mut i: usize = 0;
        while i < self.queue.len()
            invariant
                i <= self.queue.len(),
                forall|k: int| 0 <= k < i ==> (#[trigger] self.turn_list()[k]).id != id,
            decreases self.queue.len() - i,
        {
            assert(self.turn_list()[i as int] == self.queue@[i as int]@);
            if self.queue[i].id == id {
                return Some(i);
            }
            i = i + 1;
        }
        None
    }

    /// The turn `id`.
    pub fn get_queue_item(&self, id: i64) -> (r: Result<ShepherdQueuedTurn, ShepherdChatError>)
        ensures
            match r {
                Ok(t) => exists|k: int| 0 <= k < self.turn_list().len() && #[trigger] self.turn_list()[k] == t@ && t@.id == id,
                Err(e) => (e matches ShepherdChatError::Database(m) && m@ == no_rows())
                    && forall|k: int| 0 <= k < self.turn_list().len() ==> (#[trigger] self.turn_list()[k]).id != id,
            },
    {
        match self.find_turn(id) {
            Some(k) => {
                assert(self.turn_list()[k as int] == self.queue@[k as int]@);
                Ok(self.queue[k].clone())
            },
            None => Err(ShepherdChatError::Database(
                "no rows returned by a query that expected to return at least one row".to_owned(),
            )),
        }
    }

    /// The turns of the scope that are pending, working or failed, in queue
    /// order.
    pub fn list_queue(&self, project_id: Option<i64>, runtime_name: Option<&str>) -> (r: Vec<ShepherdQueuedTurn>)
        requires
            turn_ids_increase(self.turn_list()),
        ensures
            in_queue_order(turn_views(r@)),
            turn_views(r@).to_multiset() == self.turn_list().filter(
                turn_listed(project_id, match runtime_name { Some(s) => Some(s@), None => None }),
            ).to_multiset(),
    {
        let ghost rn = match runtime_name { Some(s) => Some(s@), None => None };
        let ghost all = self.turn_list();
        let ghost pred = turn_listed(project_id, rn);
        let mut out: Vec<ShepherdQueuedTurn> = Vec::new();
        let mut i: usize = 0;
        proof {
            reveal(Seq::filter);
            assert(all.take(0) =~= Seq::<TurnView>::empty());
            assert(all.take(0).filter(pred) =~= Seq::<TurnView>::empty());
            assert(turn_views(out@) =~= Seq::<TurnView>::empty());
        }
        while i < self.queue.len()
            invariant
                i <= self.queue.len(),
                all == self.turn_list(),
                all.len() == self.queue.len(),
                turn_ids_increase(all),
                rn == match runtime_name { Some(s) => Some(s@), None => None },
                pred == turn_listed(project_id, rn),
                in_queue_order(turn_views(out@)),
                turn_views(out@).to_multiset() == all.take(i as int).filter(pred).to_multiset(),
                forall|a: int| 0 <= a < out@.len() ==> exists|q: int| 0 <= q < i && (#[trigger] turn_views(out@)[a]) == all[q],
            decreases self.queue.len() - i,
        {
            assert(all[i as int] == self.queue@[i as int]@);
            assert(all.take(i as int + 1) =~= all.take(i as int).push(all[i as int]));
            proof {
                all.take(i as int).lemma_filter_push(all[i as int], pred);
            }
            let st = self.queue[i].status.as_str();
            if self.queue[i].project_id == project_id && same_opt_text(&self.queue[i].runtime_name, runtime_name)
                && (str_eq(st, "pending") || str_eq(st, "working") || str_eq(st, "failed")) {
                let x = self.queue[i].clone();
                let mut k: usize = 0;
                while k < out.len() && !turn_precedes(&x, &out[k])
                    invariant
                        k <= out.len(),
                        forall|j: int| 0 <= j < k ==> !turn_before(x@, #[trigger] turn_views(out@)[j]),
                    decreases out.len() - k,
                {
                    assert(turn_views(out@)[k as int] == out@[k as int]@);
                    k = k + 1;
                }
                let ghost before = out@;
                let ghost bs = turn_views(before);
                proof {
                    if k < out.len() {
                        assert(bs[k as int] == out@[k as int]@);
                    }
                }
                out.insert(k, x);
                proof {
                    let vs = turn_views(out@);
                    let xv = all[i as int];
                    assert(vs =~= bs.insert(k as int, xv));
                    vstd::seq_lib::to_multiset_insert(bs, k as int, xv);
                    vstd::seq_lib::to_multiset_build(all.take(i as int).filter(pred), xv);
                    assert forall|a: int, c: int| 0 <= a <= c < vs.len() implies !turn_before(#[trigger] vs[c], #[trigger] vs[a]) by {
                        if a < k && c < k {
                            assert(vs[a] == bs[a] && vs[c] == bs[c]);
                        } else if a < k && c == k {
                            assert(vs[a] == bs[a]);
                        } else if a < k {
                            assert(vs[a] == bs[a] && vs[c] == bs[c - 1]);
                        } else if a == k && c == k {
                            lemma_turn_order(xv, xv, xv);
                        } else if a == k {
                            assert(vs[c] == bs[c - 1]);
                            lemma_turn_order(bs[c - 1], xv, bs[k as int]);
                        } else {
                            assert(vs[a] == bs[a - 1] && vs[c] == bs[c - 1]);
                        }
                    }
                    assert forall|a: int| 0 <= a < out@.len() implies exists|q: int| 0 <= q < i + 1 && (#[trigger] turn_views(out@)[a]) == all[q] by {
                        if a < k {
                            assert(vs[a] == bs[a]);
                        } else if a == k {
                            assert(vs[a] == all[i as int]);
                        } else {
                            assert(vs[a] == bs[a - 1]);
                        }
                    }
                }
            }
            i = i + 1;
        }
        assert(all.take(all.len() as int) =~= all);
        out
    }

    /// How many turns of the scope of `project_id` and `runtime_name` still
    /// wait.
    pub fn count_waiting_turns(&self, project_id: Option<i64>, runtime_name: Option<&str>) -> (r: usize)
        ensures
            r == self.turn_list().filter(turn_waiting(project_id, name_view(runtime_name))).len(),
    {
        let ghost all = self.turn_list();
        let ghost pred = turn_waiting(project_id, name_view(runtime_name));
        let mut n: usize = 0;
        let mut i: usize = 0;
        proof {
            reveal(Seq::filter);
            assert(all.take(0) =~= Seq::<TurnView>::empty());
            assert(all.take(0).filter(pred) =~= Seq::<TurnView>::empty());
        }
        while i < self.queue.len()
            invariant
                i <= self.queue.len(),
                all == self.turn_list(),
                all.len() == self.queue.len(),
                pred == turn_waiting(project_id, name_view(runtime_name)),
                n == all.take(i as int).filter(pred).len(),
                n <= i,
            decreases self.queue.len() - i,
        {
            assert(all[i as int] == self.queue@[i as int]@);
            assert(all.take(i as int + 1) =~= all.take(i as int).push(all[i as int]));
            proof {
                all.take(i as int).lemma_filter_push(all[i as int], pred);
            }
            if self.queue[i].project_id == project_id && same_opt_text(&self.queue[i].runtime_name, runtime_name)
                && str_eq(self.queue[i].status.as_str(), "pending") {
                n = n + 1;
            }
            i = i + 1;
        }
        assert(all.take(all.len() as int) =~= all);
        n
    }

    /// Takes up the next pending turn of the scope at `now`, if there is one:
    /// it becomes working, and the updated turn comes back.
    pub fn claim_next_turn(&mut self, project_id: Option<i64>, runtime_name: Option<&str>, now: String) -> (r: Result<Option<ShepherdQueuedTurn>, ShepherdChatError>)
        requires
            turn_ids_increase(old(self).turn_list()),
        ensures
            turn_ids_increase(final(self).turn_list()),
            final(self).messages@ == old(self).messages@,
            final(self).efforts@ == old(self).efforts@,
            r is Ok,
            r matches Ok(Some(t)) ==> exists|k: int| #[trigger] next_pending(old(self).turn_list(), project_id, name_view(runtime_name), k)
                && final(self).turn_list() == old(self).turn_list().update(k, started_turn(old(self).turn_list()[k], now@))
                && t@ == started_turn(old(self).turn_list()[k], now@),
            r matches Ok(None) ==> final(self).turn_list() == old(self).turn_list()
                && no_pending(old(self).turn_list(), project_id, name_view(runtime_name)),
    {
        let ghost rn = name_view(runtime_name);
        let ghost ts = self.turn_list();
        let mut best: Option<usize> = None;
        let mut i: usize = 0;
        while i < self.queue.len()
            invariant
                i <= self.queue.len(),
                ts == self.turn_list(),
                ts.len() == self.queue.len(),
                rn == name_view(runtime_name),
                turn_ids_increase(ts),
                match best {
                    Some(b) => b < i && turn_in_scope(project_id, rn)(ts[b as int]) && ts[b as int].status == "pending"@
                        && forall|q: int| 0 <= q < i && turn_in_scope(project_id, rn)(#[trigger] ts[q])
                            && ts[q].status == "pending"@ ==> !turn_before(ts[q], ts[b as int]),
                    None => forall|q: int| 0 <= q < i ==> !(turn_in_scope(project_id, rn)(#[trigger] ts[q]) && ts[q].status == "pending"@),
                },
            decreases self.queue.len() - i,
        {
            assert(ts[i as int] == self.queue@[i as int]@);
            if self.queue[i].project_id == project_id && same_opt_text(&self.queue[i].runtime_name, runtime_name)
                && str_eq(self.queue[i].status.as_str(), "pending") {
                match best {
                    None => {
                        proof {
                            lemma_turn_order(ts[i as int], ts[i as int], ts[i as int]);
                        }
                        best = Some(i);
                    },
                    Some(b) => {
                        assert(ts[b as int] == self.queue@[b as int]@);
                        if turn_precedes(&self.queue[i], &self.queue[b]) {
                            proof {
                                assert forall|q: int| 0 <= q < i + 1 && turn_in_scope(project_id, rn)(#[trigger] ts[q])
                                    && ts[q].status == "pending"@ implies !turn_before(ts[q], ts[i as int]) by {
                                    if q < i {
                                        lemma_turn_order(ts[q], ts[i as int], ts[b as int]);
                                    } else {
                                        lemma_turn_order(ts[q], ts[q], ts[q]);
                                    }
                                }
                            }
                            best = Some(i);
                        } else {
                            proof {
                                lemma_turn_order(ts[i as int], ts[b as int], ts[b as int]);
                            }
                        }
                    },
                }
            }
            i = i + 1;
        }
        match best {
            None => {
                assert(self.turn_list() == ts);
                assert(no_pending(ts, project_id, rn));
                Ok(None)
            },
            Some(k) => {
                assert(next_pending(ts, project_id, rn, k as int));
                let ghost nv = now@;
                self.queue[k].status = "working".to_owned();
                self.queue[k].error = None;
                self.queue[k].started_at = Some(now);
                self.queue[k].finished_at = None;
                proof {
                    reveal_strlit("working");
                    let nts = self.turn_list();
                    assert(self.queue@[k as int]@ == started_turn(ts[k as int], nv));
                    assert(nts =~= ts.update(k as int, started_turn(ts[k as int], nv)));
                    assert forall|a: int, c: int| 0 <= a < c < nts.len() implies (#[trigger] nts[a]).id < (#[trigger] nts[c]).id by {
                        assert(nts[a].id == ts[a].id && nts[c].id == ts[c].id);
                    }
                }
                let t = self.queue[k].clone();
                assert(t@ == started_turn(ts[k as int], nv));
                Ok(Some(t))
            },
        }
    }

    /// Records that the turn `id` finished at `now`: done, or failed with
    /// `error`. An unknown turn changes nothing.
    fn finish_turn(&mut self, id: i64, error: Option<&str>, now: String)
        requires
            turn_ids_increase(old(self).turn_list()),
        ensures
            turn_ids_increase(final(self).turn_list()),
            final(self).messages@ == old(self).messages@,
            final(self).efforts@ == old(self).efforts@,
            final(self).turn_list() == old(self).turn_list().map_values(|t: TurnView| if t.id == id {
                finished_turn(t, match error { Some(e) => Some(e@), None => None }, now@)
            } else {
                t
            }),
    {
        let ghost ts = self.turn_list();
        let ghost ev = match error { Some(e) => Some(e@), None => None::<Seq<char>> };
        let ghost nv = now@;
        let ghost target = ts.map_values(|t: TurnView| if t.id == id { finished_turn(t, ev, nv) } else { t });
        match self.find_turn(id) {
            None => {
                assert(self.turn_list() =~= target);
            },
            Some(k) => {
                match error {
                    None => {
                        self.queue[k].status = "done".to_owned();
                        self.queue[k].error = None;
                    },
                    Some(e) => {
                        self.queue[k].status = "failed".to_owned();
                        self.queue[k].error = Some(e.to_owned());
                    },
                }
                self.queue[k].finished_at = Some(now);
                proof {
                    reveal_strlit("done");
                    reveal_strlit("failed");
                    let nts = self.turn_list();
                    assert(self.queue@[k as int]@ == finished_turn(ts[k as int], ev, nv));
                    assert forall|q: int| 0 <= q < ts.len() && q != k implies ts[q].id != id by {
                        if q < k {
                            assert(ts[q].id < ts[k as int].id);
                        } else {
                            assert(ts[k as int].id < ts[q].id);
                        }
                    }
                    assert(nts =~= target);
                    assert forall|a: int, c: int| 0 <= a < c < nts.len() implies (#[trigger] nts[a]).id < (#[trigger] nts[c]).id by {
                        assert(nts[a].id == ts[a].id && nts[c].id == ts[c].id);
                    }
                }
            },
        }
    }

    /// Records that the turn `id` was done at `now`.
    pub fn complete_turn(&mut self, id: i64, now: String) -> (r: Result<(), ShepherdChatError>)
        requires
            turn_ids_increase(old(self).turn_list()),
        ensures
            r is Ok,
            turn_ids_increase(final(self).turn_list()),
            final(self).messages@ == old(self).messages@,
            final(self).efforts@ == old(self).efforts@,
            final(self).turn_list() == old(self).turn_list().map_values(|t: TurnView| if t.id == id {
                finished_turn(t, None, now@)
            } else {
                t
            }),
    {
        self.finish_turn(id, None, now);
        Ok(())
    }

    /// Records that the turn `id` failed at `now` with `error`.
    pub fn fail_turn(&mut self, id: i64, error: &str, now: String) -> (r: Result<(), ShepherdChatError>)
        requires
            turn_ids_increase(old(self).turn_list()),
        ensures
            r is Ok,
            turn_ids_increase(final(self).turn_list()),
            final(self).messages@ == old(self).messages@,
            final(self).efforts@ == old(self).efforts@,
            final(self).turn_list() == old(self).turn_list().map_values(|t: TurnView| if t.id == id {
                finished_turn(t, Some(error@), now@)
            } else {
                t
            }),
    {
        self.finish_turn(id, Some(error), now);
        Ok(())
    }

    /// Drops the turns of the scope of `project_id` and `runtime_name`.
    pub fn clear_queue(&mut self, project_id: Option<i64>, runtime_name: Option<&str>) -> (r: Result<(), ShepherdChatError>)
        requires
            turn_ids_increase(old(self).turn_list()),
        ensures
            r is Ok,
            turn_ids_increase(final(self).turn_list()),
            final(self).messages@ == old(self).messages@,
            final(self).efforts@ == old(self).efforts@,
            final(self).turn_list() == old(self).turn_list().filter(
                turn_off_scope(project_id, match runtime_name { Some(s) => Some(s@), None => None }),
            ),
    {
        let ghost rn = match runtime_name { Some(s) => Some(s@), None => None };
        let ghost all = self.turn_list();
        let ghost pred = turn_off_scope(project_id, rn);
        let mut kept: Vec<ShepherdQueuedTurn> = Vec::new();
        let mut i: usize = 0;
        proof {
            reveal(Seq::filter);
            assert(all.take(0) =~= Seq::<TurnView>::empty());
            assert(all.take(0).filter(pred) =~= Seq::<TurnView>::empty());
            assert(turn_views(kept@) =~= Seq::<TurnView>::empty());
        }
        while i < self.queue.len()
            invariant
                i <= self.queue.len(),
                all == self.turn_list(),
                all.len() == self.queue.len(),
                turn_ids_increase(all),
                rn == match runtime_name { Some(s) => Some(s@), None => None },
                pred == turn_off_scope(project_id, rn),
                turn_views(kept@) == all.take(i as int).filter(pred),
                turn_ids_increase(turn_views(kept@)),
                forall|a: int| 0 <= a < kept@.len() ==> exists|q: int| 0 <= q < i && (#[trigger] turn_views(kept@)[a]) == all[q],
            decreases self.queue.len() - i,
        {
            assert(all[i as int] == self.queue@[i as int]@);
            assert(all.take(i as int + 1) =~= all.take(i as int).push(all[i as int]));
            proof {
                all.take(i as int).lemma_filter_push(all[i as int], pred);
            }
            if !(self.queue[i].project_id == project_id && same_opt_text(&self.queue[i].runtime_name, runtime_name)) {
                let ghost before = turn_views(kept@);
                kept.push(self.queue[i].clone());
                proof {
                    let now_k = turn_views(kept@);
                    assert(now_k =~= before.push(all[i as int]));
                    assert forall|a: int| 0 <= a < kept@.len() implies exists|q: int| 0 <= q < i + 1 && (#[trigger] turn_views(kept@)[a]) == all[q] by {
                        if a < before.len() {
                            assert(now_k[a] == before[a]);
                        } else {
                            assert(now_k[a] == all[i as int]);
                        }
                    }
                    assert forall|a: int, c: int| 0 <= a < c < now_k.len() implies (#[trigger] now_k[a]).id < (#[trigger] now_k[c]).id by {
                        assert(now_k[a] == before[a]);
                        if c == before.len() {
                            let q = choose|q: int| 0 <= q < i && before[a] == all[q];
                            assert(all[q].id < all[i as int].id);
                        } else {
                            assert(now_k[c] == before[c]);
                        }
                    }
                }
            }
            i = i + 1;
        }
        assert(all.take(all.len() as int) =~= all);
        self.queue = kept;
        Ok(())
    }
}

/// The contents of an effort.
pub struct EffortView {
    pub id: Seq<char>,
    pub project_id: i64,
    pub route_id: i64,
    pub work_item_id: Seq<char>,
    pub title: Seq<char>,
    pub summary: Seq<char>,
    pub status: Seq<char>,
    pub focused: bool,
    pub created_at: Seq<char>,
    pub updated_at: Seq<char>,
    pub last_activity_at: Seq<char>,
    pub archived_at: Option<Seq<char>>,
}

impl View for ShepherdEffort {
    type V = EffortView;

    open spec fn view(&self) -> EffortView {
        EffortView {
            id: self.id@,
            project_id: self.project_id,
            route_id: self.route_id,
            work_item_id: self.work_item_id@,
            title: self.title@,
            summary: self.summary@,
            status: self.status@,
            focused: self.focused,
            created_at: self.created_at@,
            updated_at: self.updated_at@,
            last_activity_at: self.last_activity_at@,
            archived_at: opt_view(self.archived_at),
        }
    }
}

impl Clone for ShepherdEffort {
    fn clone(&self) -> (r: Self)
        ensures
            r@ == self@,
    {
        ShepherdEffort {
            id: self.id.clone(),
            project_id: self.project_id,
            route_id: self.route_id,
            work_item_id: self.work_item_id.clone(),
            title: self.title.clone(),
            summary: self.summary.clone(),
            status: self.status.clone(),
            focused: self.focused,
            created_at: self.created_at.clone(),
            updated_at: self.updated_at.clone(),
            last_activity_at: self.last_activity_at.clone(),
            archived_at: clone_opt(&self.archived_at),
        }
    }
}

/// The contents of a sequence of efforts.
pub open spec fn effort_views(es: Seq<ShepherdEffort>) -> Seq<EffortView> {
    es.map_values(|e: ShepherdEffort| e@)
}

/// Effort ids are unique and each project has at most one effort in focus.
pub open spec fn efforts_wf(es: Seq<EffortView>) -> bool {
    &&& forall|a: int, c: int| 0 <= a < c < es.len() ==> (#[trigger] es[a]).id != (#[trigger] es[c]).id
    &&& forall|a: int, c: int| 0 <= a < c < es.len() && (#[trigger] es[a]).focused && (#[trigger] es[c]).focused
        ==> es[a].project_id != es[c].project_id
}

/// The efforts `es` with none of project `project_id` in focus.
pub open spec fn unfocused(es: Seq<EffortView>, project_id: i64) -> Seq<EffortView> {
    es.map_values(|e: EffortView| if e.project_id == project_id { EffortView { focused: false, ..e } } else { e })
}

/// A new effort, active.
pub open spec fn new_effort(
    id: Seq<char>,
    project_id: i64,
    route_id: i64,
    work_item_id: Seq<char>,
    title: Seq<char>,
    summary: Seq<char>,
    focused: bool,
    now: Seq<char>,
) -> EffortView {
    EffortView {
        id,
        project_id,
        route_id,
        work_item_id,
        title,
        summary,
        status: "active"@,
        focused,
        created_at: now,
        updated_at: now,
        last_activity_at: now,
        archived_at: None,
    }
}

/// The efforts after focusing `effort_id` of project `project_id` at `now`.
pub open spec fn refocused(es: Seq<EffortView>, project_id: i64, effort_id: Seq<char>, now: Seq<char>) -> Seq<EffortView> {
    unfocused(es, project_id).map_values(|e: EffortView| if e.id == effort_id && e.project_id == project_id {
        EffortView { focused: true, updated_at: now, last_activity_at: now, ..e }
    } else {
        e
    })
}

/// The effort `e` after an update at `now`.
pub open spec fn effort_updated(e: EffortView, summary: Option<Seq<char>>, status: Option<Seq<char>>, now: Seq<char>) -> EffortView {
    EffortView {
        summary: match summary { Some(s) => s, None => e.summary },
        status: match status { Some(s) => s, None => e.status },
        updated_at: now,
        last_activity_at: now,
        ..e
    }
}

/// The effort `e` once archived at `now`.
pub open spec fn effort_archived(e: EffortView, now: Seq<char>) -> EffortView {
    EffortView { archived_at: Some(now), focused: false, updated_at: now, ..e }
}

/// Whether an effort is a live effort of the route `route_id` of project
/// `project_id`.
pub open spec fn live_in(project_id: i64, route_id: i64) -> spec_fn(EffortView) -> bool {
    |e: EffortView| e.project_id == project_id && e.route_id == route_id && e.archived_at is None
}

/// Whether effort `a` is listed before effort `b`: in focus first, then the
/// most recently active, then the most recently created.
pub open spec fn effort_before(a: EffortView, b: EffortView) -> bool {
    ||| (a.focused && !b.focused)
    ||| (a.focused == b.focused && text_lt(b.last_activity_at, a.last_activity_at))
    ||| (a.focused == b.focused && a.last_activity_at == b.last_activity_at && text_lt(b.created_at, a.created_at))
}

/// The listing order of efforts is a strict order.
pub proof fn lemma_effort_order(a: EffortView, b: EffortView, c: EffortView)
    ensures
        !effort_before(a, a),
        effort_before(a, b) && effort_before(b, c) ==> effort_before(a, c),
{
    lemma_text_order(a.last_activity_at, a.last_activity_at, a.last_activity_at);
    lemma_text_order(a.created_at, a.created_at, a.created_at);
    lemma_text_order(c.last_activity_at, b.last_activity_at, a.last_activity_at);
    lemma_text_order(c.created_at, b.created_at, a.created_at);
}

/// Efforts in listing order.
pub open spec fn in_listing_order(es: Seq<EffortView>) -> bool {
    forall|i: int, j: int| 0 <= i <= j < es.len() ==> !effort_before(#[trigger] es[j], #[trigger] es[i])
}

/// In a listing of efforts, every effort in focus comes before every effort
/// out of focus, whatever their activity; among efforts alike in focus, a
/// more recently active one comes before a less recently active one, and
/// among those alike in focus and activity, the more recently created first.
pub proof fn lemma_focused_efforts_first(es: Seq<EffortView>)
    requires
        in_listing_order(es),
    ensures
        forall|i: int, j: int| 0 <= i < es.len() && 0 <= j < es.len() && (#[trigger] es[i]).focused
            && !(#[trigger] es[j]).focused ==> i < j,
        forall|i: int, j: int| 0 <= i < es.len() && 0 <= j < es.len() && (#[trigger] es[i]).focused == (#[trigger] es[j]).focused
            && text_lt(es[j].last_activity_at, es[i].last_activity_at) ==> i < j,
        forall|i: int, j: int| 0 <= i < es.len() && 0 <= j < es.len() && (#[trigger] es[i]).focused == (#[trigger] es[j]).focused
            && es[i].last_activity_at == es[j].last_activity_at && text_lt(es[j].created_at, es[i].created_at) ==> i < j,
{
    assert forall|i: int, j: int| 0 <= i < es.len() && 0 <= j < es.len() && (#[trigger] es[i]).focused
        && !(#[trigger] es[j]).focused implies i < j by {
        if j <= i {
            assert(!effort_before(es[i], es[j]));
        }
    }
    assert forall|i: int, j: int| 0 <= i < es.len() && 0 <= j < es.len() && (#[trigger] es[i]).focused == (#[trigger] es[j]).focused
        && text_lt(es[j].last_activity_at, es[i].last_activity_at) implies i < j by {
        if j <= i {
            assert(!effort_before(es[i], es[j]));
        }
    }
    assert forall|i: int, j: int| 0 <= i < es.len() && 0 <= j < es.len() && (#[trigger] es[i]).focused == (#[trigger] es[j]).focused
        && es[i].last_activity_at == es[j].last_activity_at && text_lt(es[j].created_at, es[i].created_at) implies i < j by {
        if j <= i {
            assert(!effort_before(es[i], es[j]));
        }
    }
}

/// The text of the store's refusal of a second effort with an existing id.
pub open spec fn effort_key_taken() -> Seq<char> {
    "UNIQUE constraint failed: shepherd_efforts.id"@
}

/// Whether effort `a` is listed before effort `b`.
fn effort_precedes(a: &ShepherdEffort, b: &ShepherdEffort) -> (r: bool)
    ensures
        r == effort_before(a@, b@),
{
    if a.focused && !b.focused {
        return true;
    }
    if a.focused != b.focused {
        return false;
    }
    if text_less(b.last_activity_at.as_str(), a.last_activity_at.as_str()) {
        return true;
    }
    str_eq(a.last_activity_at.as_str(), b.last_activity_at.as_str())
        && text_less(b.created_at.as_str(), a.created_at.as_str())
}

impl ShepherdChatStore {
    /// The efforts of the store.
    pub open spec fn effort_list(&self) -> Seq<EffortView> {
        effort_views(self.efforts@)
    }

    /// The position of the effort `id`, if there is one.
    fn find_effort(&self, id: &str) -> (r: Option<usize>)
        ensures
            match r {
                Some(k) => k < self.efforts.len() && self.effort_list()[k as int].id == id@,
                None => forall|k: int| 0 <= k < self.effort_list().len() ==> (#[trigger] self.effort_list()[k]).id != id@,
            },
    {
        let mut i: usize = 0;
        while i < self.efforts.len()
            invariant
                i <= self.efforts.len(),
                forall|k: int| 0 <= k < i ==> (#[trigger] self.effort_list()[k]).id != id@,
            decreases self.efforts.len() - i,
        {
            assert(self.effort_list()[i as int] == self.efforts@[i as int]@);
            if str_eq(self.efforts[i].id.as_str(), id) {
                return Some(i);
            }
            i = i + 1;
        }
        None
    }

    /// Takes project `project_id`'s efforts out of focus.
    fn unfocus_project(&mut self, project_id: i64)
        ensures
            final(self).effort_list() == unfocused(old(self).effort_list(), project_id),
            final(self).messages@ == old(self).messages@,
            final(self).queue@ == old(self).queue@,
    {
        let ghost es = self.effort_list();
        let mut i: usize = 0;
        while i < self.efforts.len()
            invariant
                i <= self.efforts.len(),
                self.efforts.len() == es.len(),
                self.messages@ == old(self).messages@,
                self.queue@ == old(self).queue@,
                es == old(self).effort_list(),
                forall|j: int| 0 <= j < i ==> (#[trigger] self.effort_list()[j]) == unfocused(es, project_id)[j],
                forall|j: int| i <= j < es.len() ==> (#[trigger] self.effort_list()[j]) == es[j],
            decreases self.efforts.len() - i,
        {
            let ghost cur_v = self.efforts@;
            let ghost cur = self.effort_list();
            assert(cur[i as int] == cur_v[i as int]@);
            if self.efforts[i].project_id == project_id {
                self.efforts[i].focused = false;
            }
            proof {
                assert(self.effort_list()[i as int] == self.efforts@[i as int]@);
                assert forall|j: int| 0 <= j < self.efforts.len() && j != i implies (#[trigger] self.effort_list()[j]) == cur[j] by {
                    assert(self.efforts@[j] == cur_v[j]);
                    assert(self.effort_list()[j] == self.efforts@[j]@);
                    assert(cur[j] == cur_v[j]@);
                }
            }
            i = i + 1;
        }
        assert(self.effort_list() =~= unfocused(es, project_id));
    }

    /// Takes the focus from every effort of project `project_id`.
    pub fn unfocus_project_efforts(&mut self, project_id: i64)
        requires
            efforts_wf(old(self).effort_list()),
        ensures
            efforts_wf(final(self).effort_list()),
            final(self).effort_list() == unfocused(old(self).effort_list(), project_id),
            final(self).messages@ == old(self).messages@,
            final(self).queue@ == old(self).queue@,
    {
        let ghost es0 = self.effort_list();
        self.unfocus_project(project_id);
        proof {
            let es1 = self.effort_list();
            assert forall|k: int| 0 <= k < es1.len() implies (#[trigger] es1[k]).id == es0[k].id
                && es1[k].project_id == es0[k].project_id && (es1[k].focused ==> es0[k].focused) by {
            }
            assert forall|a: int, c: int| 0 <= a < c < es1.len() implies (#[trigger] es1[a]).id != (#[trigger] es1[c]).id by {
                assert(es0[a].id != es0[c].id);
            }
            assert forall|a: int, c: int| 0 <= a < c < es1.len() && (#[trigger] es1[a]).focused && (#[trigger] es1[c]).focused
                implies es1[a].project_id != es1[c].project_id by {
                assert(es0[a].focused && es0[c].focused);
            }
        }
    }

    /// Starts the effort `id` on the work item `work_item_id` of a project's
    /// route, at `now`. An effort started in focus takes the focus from the
    /// project's other efforts.
    pub fn create_effort(
        &mut self,
        project_id: i64,
        route_id: i64,
        work_item_id: &str,
        title: &str,
        summary: &str,
        focused: bool,
        id: String,
        now: String,
    ) -> (r: Result<ShepherdEffort, ShepherdChatError>)
        requires
            efforts_wf(old(self).effort_list()),
        ensures
            efforts_wf(final(self).effort_list()),
            final(self).messages@ == old(self).messages@,
            final(self).queue@ == old(self).queue@,
            (exists|k: int| 0 <= k < old(self).effort_list().len() && (#[trigger] old(self).effort_list()[k]).id == id@)
                ==> (r matches Err(ShepherdChatError::Database(m)) && m@ == effort_key_taken())
                && final(self).effort_list() == old(self).effort_list(),
            (forall|k: int| 0 <= k < old(self).effort_list().len() ==> (#[trigger] old(self).effort_list()[k]).id != id@)
                ==> ({
                let e = new_effort(id@, project_id, route_id, work_item_id@, title@, summary@, focused, now@);
                &&& r matches Ok(x) && x@ == e
                &&& final(self).effort_list() == (if focused {
                    unfocused(old(self).effort_list(), project_id)
                } else {
                    old(self).effort_list()
                }).push(e)
            }),
    {
        if self.find_effort(id.as_str()).is_some() {
            return Err(ShepherdChatError::Database("UNIQUE constraint failed: shepherd_efforts.id".to_owned()));
        }
        let ghost es0 = self.effort_list();
        if focused {
            self.unfocus_project(project_id);
        }
        let ghost es1 = self.effort_list();
        let e = ShepherdEffort {
            id,
            project_id,
            route_id,
            work_item_id: work_item_id.to_owned(),
            title: title.to_owned(),
            summary: summary.to_owned(),
            status: "active".to_owned(),
            focused,
            created_at: now.clone(),
            updated_at: now.clone(),
            last_activity_at: now,
            archived_at: None,
        };
        let out = e.clone();
        self.efforts.push(e);
        proof {
            reveal_strlit("active");
            let es2 = self.effort_list();
            assert(es2 =~= es1.push(out@));
            assert forall|k: int| 0 <= k < es1.len() implies (#[trigger] es1[k]).id == es0[k].id
                && es1[k].project_id == es0[k].project_id && (es1[k].focused ==> es0[k].focused)
                && (focused ==> !(es1[k].focused && es1[k].project_id == project_id)) by {
            }
            assert forall|a: int, c: int| 0 <= a < c < es2.len() implies (#[trigger] es2[a]).id != (#[trigger] es2[c]).id by {
                assert(es2[a] == es1[a]);
                if c < es1.len() {
                    assert(es2[c] == es1[c]);
                    assert(es0[a].id != es0[c].id);
                }
            }
            assert forall|a: int, c: int| 0 <= a < c < es2.len() && (#[trigger] es2[a]).focused && (#[trigger] es2[c]).focused
                implies es2[a].project_id != es2[c].project_id by {
                assert(es2[a] == es1[a]);
                if c < es1.len() {
                    assert(es2[c] == es1[c]);
                }
            }
        }
        Ok(out)
    }

    /// The effort `effort_id`.
    pub fn get_effort(&self, effort_id: &str) -> (r: Result<ShepherdEffort, ShepherdChatError>)
        ensures
            match r {
                Ok(e) => exists|k: int| 0 <= k < self.effort_list().len() && #[trigger] self.effort_list()[k] == e@
                    && e@.id == effort_id@,
                Err(e) => (e matches ShepherdChatError::Database(m) && m@ == no_rows())
                    && forall|k: int| 0 <= k < self.effort_list().len() ==> (#[trigger] self.effort_list()[k]).id != effort_id@,
            },
    {
        match self.find_effort(effort_id) {
            Some(k) => {
                assert(self.effort_list()[k as int] == self.efforts@[k as int]@);
                Ok(self.efforts[k].clone())
            },
            None => Err(ShepherdChatError::Database(
                "no rows returned by a query that expected to return at least one row".to_owned(),
            )),
        }
    }

    /// The live efforts of a project's route, in focus first, then the most
    /// recently active, then the most recently created.
    pub fn list_project_efforts(&self, project_id: i64, route_id: i64) -> (r: Result<Vec<ShepherdEffort>, ShepherdChatError>)
        ensures
            r matches Ok(v) && in_listing_order(effort_views(v@))
                && effort_views(v@).to_multiset() == self.effort_list().filter(live_in(project_id, route_id)).to_multiset(),
    {
        let ghost all = self.effort_list();
        let ghost pred = live_in(project_id, route_id);
        let mut out: Vec<ShepherdEffort> = Vec::new();
        let mut i: usize = 0;
        proof {
            reveal(Seq::filter);
            assert(all.take(0) =~= Seq::<EffortView>::empty());
            assert(all.take(0).filter(pred) =~= Seq::<EffortView>::empty());
            assert(effort_views(out@) =~= Seq::<EffortView>::empty());
        }
        while i < self.efforts.len()
            invariant
                i <= self.efforts.len(),
                all == self.effort_list(),
                all.len() == self.efforts.len(),
                pred == live_in(project_id, route_id),
                in_listing_order(effort_views(out@)),
                effort_views(out@).to_multiset() == all.take(i as int).filter(pred).to_multiset(),
            decreases self.efforts.len() - i,
        {
            assert(all[i as int] == self.efforts@[i as int]@);
            assert(all.take(i as int + 1) =~= all.take(i as int).push(all[i as int]));
            proof {
                all.take(i as int).lemma_filter_push(all[i as int], pred);
            }
            if self.efforts[i].project_id == project_id && self.efforts[i].route_id == route_id
                && self.efforts[i].archived_at.is_none() {
                let x = self.efforts[i].clone();
                let mut k: usize = 0;
                while k < out.len() && !effort_precedes(&x, &out[k])
                    invariant
                        k <= out.len(),
                        forall|j: int| 0 <= j < k ==> !effort_before(x@, #[trigger] effort_views(out@)[j]),
                    decreases out.len() - k,
                {
                    assert(effort_views(out@)[k as int] == out@[k as int]@);
                    k = k + 1;
                }
                let ghost before = out@;
                let ghost bs = effort_views(before);
                proof {
                    if k < out.len() {
                        assert(bs[k as int] == out@[k as int]@);
                    }
                }
                out.insert(k, x);
                proof {
                    let vs = effort_views(out@);
                    let xv = all[i as int];
                    assert(vs =~= bs.insert(k as int, xv));
                    vstd::seq_lib::to_multiset_insert(bs, k as int, xv);
                    vstd::seq_lib::to_multiset_build(all.take(i as int).filter(pred), xv);
                    assert forall|a: int, c: int| 0 <= a <= c < vs.len() implies !effort_before(#[trigger] vs[c], #[trigger] vs[a]) by {
                        if a < k && c < k {
                            assert(vs[a] == bs[a] && vs[c] == bs[c]);
                        } else if a < k && c == k {
                            assert(vs[a] == bs[a]);
                        } else if a < k {
                            assert(vs[a] == bs[a] && vs[c] == bs[c - 1]);
                        } else if a == k && c == k {
                            lemma_effort_order(xv, xv, xv);
                        } else if a == k {
                            assert(vs[c] == bs[c - 1]);
                            lemma_effort_order(bs[c - 1], xv, bs[k as int]);
                        } else {
                            assert(vs[a] == bs[a - 1] && vs[c] == bs[c - 1]);
                        }
                    }
                }
            }
            i = i + 1;
        }
        assert(all.take(all.len() as int) =~= all);
        Ok(out)
    }

    /// The live effort in focus of a project's route, if there is one.
    pub fn focused_effort(&self, project_id: i64, route_id: i64) -> (r: Result<Option<ShepherdEffort>, ShepherdChatError>)
        requires
            efforts_wf(self.effort_list()),
        ensures
            r matches Ok(Some(e)) ==> exists|k: int| 0 <= k < self.effort_list().len()
                && #[trigger] self.effort_list()[k] == e@ && live_in(project_id, route_id)(e@) && e@.focused,
            r matches Ok(None) ==> forall|k: int| 0 <= k < self.effort_list().len()
                ==> !(live_in(project_id, route_id)(#[trigger] self.effort_list()[k]) && self.effort_list()[k].focused),
            r is Ok,
    {
        let mut i: usize = 0;
        while i < self.efforts.len()
            invariant
                i <= self.efforts.len(),
                forall|k: int| 0 <= k < i ==> !(live_in(project_id, route_id)(#[trigger] self.effort_list()[k])
                    && self.effort_list()[k].focused),
            decreases self.efforts.len() - i,
        {
            assert(self.effort_list()[i as int] == self.efforts@[i as int]@);
            if self.efforts[i].focused && self.efforts[i].project_id == project_id && self.efforts[i].route_id == route_id
                && self.efforts[i].archived_at.is_none() {
                return Ok(Some(self.efforts[i].clone()));
            }
            i = i + 1;
        }
        Ok(None)
    }

    /// Puts the effort `effort_id` of project `project_id` in focus at
    /// `now`; the project's other efforts leave it.
    pub fn set_focused_effort(&mut self, project_id: i64, effort_id: &str, now: String) -> (r: Result<(), ShepherdChatError>)
        requires
            efforts_wf(old(self).effort_list()),
        ensures
            r is Ok,
            efforts_wf(final(self).effort_list()),
            final(self).effort_list() == refocused(old(self).effort_list(), project_id, effort_id@, now@),
            final(self).messages@ == old(self).messages@,
            final(self).queue@ == old(self).queue@,
    {
        let ghost es0 = self.effort_list();
        let ghost nv = now@;
        self.unfocus_project(project_id);
        let ghost es1 = self.effort_list();
        match self.find_effort(effort_id) {
            None => {
                assert(self.effort_list() =~= refocused(es0, project_id, effort_id@, nv));
            },
            Some(k) => {
                if self.efforts[k].project_id == project_id {
                    self.efforts[k].focused = true;
                    self.efforts[k].updated_at = now.clone();
                    self.efforts[k].last_activity_at = now;
                }
                proof {
                    assert forall|q: int| 0 <= q < es1.len() && q != k implies (#[trigger] es1[q]).id != effort_id@ by {
                        assert(es1[q].id == es0[q].id);
                        assert(es1[k as int].id == es0[k as int].id);
                        if q < k {
                            assert(es0[q].id != es0[k as int].id);
                        } else {
                            assert(es0[k as int].id != es0[q].id);
                        }
                    }
                    assert(self.effort_list() =~= refocused(es0, project_id, effort_id@, nv));
                }
            },
        }
        proof {
            let es2 = self.effort_list();
            assert forall|a: int, c: int| 0 <= a < c < es2.len() implies (#[trigger] es2[a]).id != (#[trigger] es2[c]).id by {
                assert(es2[a].id == es0[a].id && es2[c].id == es0[c].id);
            }
            assert forall|a: int, c: int| 0 <= a < c < es2.len() && (#[trigger] es2[a]).focused && (#[trigger] es2[c]).focused
                implies es2[a].project_id != es2[c].project_id by {
                assert(es2[a].project_id == es0[a].project_id && es2[c].project_id == es0[c].project_id);
                if es0[a].project_id == project_id && es0[c].project_id == project_id {
                    assert(es2[a].id == effort_id@ && es2[c].id == effort_id@);
                    assert(es0[a].id != es0[c].id);
                }
            }
        }
        Ok(())
    }

    /// Changes the summary and status of the effort `effort_id` where given,
    /// at `now`.
    pub fn update_effort(&mut self, effort_id: &str, summary: Option<&str>, status: Option<&str>, now: String) -> (r: Result<(), ShepherdChatError>)
        requires
            efforts_wf(old(self).effort_list()),
        ensures
            r is Ok,
            efforts_wf(final(self).effort_list()),
            final(self).effort_list() == old(self).effort_list().map_values(|e: EffortView| if e.id == effort_id@ {
                effort_updated(e, name_view(summary), name_view(status), now@)
            } else {
                e
            }),
            final(self).messages@ == old(self).messages@,
            final(self).queue@ == old(self).queue@,
    {
        let ghost es0 = self.effort_list();
        let ghost nv = now@;
        match self.find_effort(effort_id) {
            None => {
                assert(self.effort_list() =~= es0.map_values(|e: EffortView| if e.id == effort_id@ {
                    effort_updated(e, name_view(summary), name_view(status), nv)
                } else {
                    e
                }));
            },
            Some(k) => {
                if let Some(s) = summary {
                    self.efforts[k].summary = s.to_owned();
                }
                if let Some(s) = status {
                    self.efforts[k].status = s.to_owned();
                }
                self.efforts[k].updated_at = now.clone();
                self.efforts[k].last_activity_at = now;
                proof {
                    assert forall|q: int| 0 <= q < es0.len() && q != k implies (#[trigger] es0[q]).id != effort_id@ by {
                        if q < k {
                            assert(es0[q].id != es0[k as int].id);
                        } else {
                            assert(es0[k as int].id != es0[q].id);
                        }
                    }
                    assert(self.effort_list() =~= es0.map_values(|e: EffortView| if e.id == effort_id@ {
                        effort_updated(e, name_view(summary), name_view(status), nv)
                    } else {
                        e
                    }));
                }
            },
        }
        proof {
            let es2 = self.effort_list();
            assert forall|a: int, c: int| 0 <= a < c < es2.len() implies (#[trigger] es2[a]).id != (#[trigger] es2[c]).id by {
                assert(es2[a].id == es0[a].id && es2[c].id == es0[c].id);
            }
            assert forall|a: int, c: int| 0 <= a < c < es2.len() && (#[trigger] es2[a]).focused && (#[trigger] es2[c]).focused
                implies es2[a].project_id != es2[c].project_id by {
                assert(es2[a].project_id == es0[a].project_id && es2[c].project_id == es0[c].project_id);
                assert(es2[a].focused == es0[a].focused && es2[c].focused == es0[c].focused);
            }
        }
        Ok(())
    }

    /// Archives the effort `effort_id` at `now`; it leaves the focus.
    pub fn archive_effort(&mut self, effort_id: &str, now: String) -> (r: Result<(), ShepherdChatError>)
        requires
            efforts_wf(old(self).effort_list()),
        ensures
            r is Ok,
            efforts_wf(final(self).effort_list()),
            final(self).effort_list() == old(self).effort_list().map_values(|e: EffortView| if e.id == effort_id@ {
                effort_archived(e, now@)
            } else {
                e
            }),
            final(self).messages@ == old(self).messages@,
            final(self).queue@ == old(self).queue@,
    {
        let ghost es0 = self.effort_list();
        let ghost nv = now@;
        match self.find_effort(effort_id) {
            None => {
                assert(self.effort_list() =~= es0.map_values(|e: EffortView| if e.id == effort_id@ {
                    effort_archived(e, nv)
                } else {
                    e
                }));
            },
            Some(k) => {
                self.efforts[k].archived_at = Some(now.clone());
                self.efforts[k].focused = false;
                self.efforts[k].updated_at = now;
                proof {
                    assert forall|q: int| 0 <= q < es0.len() && q != k implies (#[trigger] es0[q]).id != effort_id@ by {
                        if q < k {
                            assert(es0[q].id != es0[k as int].id);
                        } else {
                            assert(es0[k as int].id != es0[q].id);
                        }
                    }
                    assert(self.effort_list() =~= es0.map_values(|e: EffortView| if e.id == effort_id@ {
                        effort_archived(e, nv)
                    } else {
                        e
                    }));
                }
            },
        }
        proof {
            let es2 = self.effort_list();
            assert forall|a: int, c: int| 0 <= a < c < es2.len() implies (#[trigger] es2[a]).id != (#[trigger] es2[c]).id by {
                assert(es2[a].id == es0[a].id && es2[c].id == es0[c].id);
            }
            assert forall|a: int, c: int| 0 <= a < c < es2.len() && (#[trigger] es2[a]).focused && (#[trigger] es2[c]).focused
                implies es2[a].project_id != es2[c].project_id by {
                assert(es2[a].project_id == es0[a].project_id && es2[c].project_id == es0[c].project_id);
                assert(es2[a].focused ==> es0[a].focused);
                assert(es2[c].focused ==> es0[c].focused);
            }
        }
        Ok(())
    }
}

/// Whether a message belongs to some other project than `project_id`.
pub open spec fn message_not_of_project(project_id: i64) -> spec_fn(MessageView) -> bool {
    |m: MessageView| m.project_id != Some(project_id)
}

/// Whether a turn belongs to some other project than `project_id`.
pub open spec fn turn_not_of_project(project_id: i64) -> spec_fn(TurnView) -> bool {
    |t: TurnView| t.project_id != Some(project_id)
}

/// Whether an effort belongs to some other project than `project_id`.
pub open spec fn effort_not_of_project(project_id: i64) -> spec_fn(EffortView) -> bool {
    |e: EffortView| e.project_id != project_id
}

/// Whether a message belongs to some other runtime than `runtime_name`.
pub open spec fn message_not_of_run(runtime_name: Seq<char>) -> spec_fn(MessageView) -> bool {
    |m: MessageView| m.runtime_name != Some(runtime_name)
}

/// Whether a turn belongs to some other runtime than `runtime_name`.
pub open spec fn turn_not_of_run(runtime_name: Seq<char>) -> spec_fn(TurnView) -> bool {
    |t: TurnView| t.runtime_name != Some(runtime_name)
}

impl ShepherdChatStore {
    /// Keeps the messages of other projects (`project` given) or of other
    /// runtimes.
    fn retain_messages(&mut self, project: Option<i64>, runtime: Option<&str>)
        requires
            message_ids_increase(old(self).message_list()),
            project is Some || runtime is Some,
        ensures
            message_ids_increase(final(self).message_list()),
            final(self).queue@ == old(self).queue@,
            final(self).efforts@ == old(self).efforts@,
            project matches Some(p) ==> final(self).message_list() == old(self).message_list().filter(message_not_of_project(p)),
            runtime matches Some(r) ==> (project is None ==> final(self).message_list() == old(self).message_list().filter(message_not_of_run(r@))),
    {
        let ghost all = self.message_list();
        let ghost pred: spec_fn(MessageView) -> bool = match project {
            Some(p) => message_not_of_project(p),
            None => message_not_of_run(match runtime { Some(r) => r@, None => Seq::empty() }),
        };
        let mut kept: Vec<ShepherdChatMessage> = Vec::new();
        let mut i: usize = 0;
        proof {
            reveal(Seq::filter);
            assert(all.take(0) =~= Seq::<MessageView>::empty());
            assert(all.take(0).filter(pred) =~= Seq::<MessageView>::empty());
            assert(message_views(kept@) =~= Seq::<MessageView>::empty());
        }
        while i < self.messages.len()
            invariant
                i <= self.messages.len(),
                all == self.message_list(),
                all.len() == self.messages.len(),
                message_ids_increase(all),
                project is Some || runtime is Some,
                pred == match project {
                    Some(p) => message_not_of_project(p),
                    None => message_not_of_run(match runtime { Some(r) => r@, None => Seq::empty() }),
                },
                message_views(kept@) == all.take(i as int).filter(pred),
                message_ids_increase(message_views(kept@)),
                forall|a: int| 0 <= a < kept@.len() ==> exists|q: int| 0 <= q < i && (#[trigger] message_views(kept@)[a]) == all[q],
            decreases self.messages.len() - i,
        {
            assert(all[i as int] == self.messages@[i as int]@);
            assert(all.take(i as int + 1) =~= all.take(i as int).push(all[i as int]));
            proof {
                all.take(i as int).lemma_filter_push(all[i as int], pred);
            }
            let keep = match project {
                Some(p) => self.messages[i].project_id != Some(p),
                None => match runtime {
                    Some(r) => !same_opt_text(&self.messages[i].runtime_name, Some(r)),
                    None => true,
                },
            };
            if keep {
                let ghost before = message_views(kept@);
                kept.push(self.messages[i].clone());
                proof {
                    let now_k = message_views(kept@);
                    assert(now_k =~= before.push(all[i as int]));
                    assert forall|a: int| 0 <= a < kept@.len() implies exists|q: int| 0 <= q < i + 1 && (#[trigger] message_views(kept@)[a]) == all[q] by {
                        if a < before.len() {
                            assert(now_k[a] == before[a]);
                        } else {
                            assert(now_k[a] == all[i as int]);
                        }
                    }
                    assert forall|a: int, c: int| 0 <= a < c < now_k.len() implies (#[trigger] now_k[a]).id < (#[trigger] now_k[c]).id by {
                        assert(now_k[a] == before[a]);
                        if c == before.len() {
                            let q = choose|q: int| 0 <= q < i && before[a] == all[q];
                            assert(all[q].id < all[i as int].id);
                        } else {
                            assert(now_k[c] == before[c]);
                        }
                    }
                }
            }
            i = i + 1;
        }
        assert(all.take(all.len() as int) =~= all);
        self.messages = kept;
    }

    /// Keeps the turns of other projects (`project` given) or of other
    /// runtimes.
    fn retain_turns(&mut self, project: Option<i64>, runtime: Option<&str>)
        requires
            turn_ids_increase(old(self).turn_list()),
            project is Some || runtime is Some,
        ensures
            turn_ids_increase(final(self).turn_list()),
            final(self).messages@ == old(self).messages@,
            final(self).efforts@ == old(self).efforts@,
            project matches Some(p) ==> final(self).turn_list() == old(self).turn_list().filter(turn_not_of_project(p)),
            runtime matches Some(r) ==> (project is None ==> final(self).turn_list() == old(self).turn_list().filter(turn_not_of_run(r@))),
    {
        let ghost all = self.turn_list();
        let ghost pred: spec_fn(TurnView) -> bool = match project {
            Some(p) => turn_not_of_project(p),
            None => turn_not_of_run(match runtime { Some(r) => r@, None => Seq::empty() }),
        };
        let mut kept: Vec<ShepherdQueuedTurn> = Vec::new();
        let mut i: usize = 0;
        proof {
            reveal(Seq::filter);
            assert(all.take(0) =~= Seq::<TurnView>::empty());
            assert(all.take(0).filter(pred) =~= Seq::<TurnView>::empty());
            assert(turn_views(kept@) =~= Seq::<TurnView>::empty());
        }
        while i < self.queue.len()
            invariant
                i <= self.queue.len(),
                all == self.turn_list(),
                all.len() == self.queue.len(),
                turn_ids_increase(all),
                project is Some || runtime is Some,
                pred == match project {
                    Some(p) => turn_not_of_project(p),
                    None => turn_not_of_run(match runtime { Some(r) => r@, None => Seq::empty() }),
                },
                turn_views(kept@) == all.take(i as int).filter(pred),
                turn_ids_increase(turn_views(kept@)),
                forall|a: int| 0 <= a < kept@.len() ==> exists|q: int| 0 <= q < i && (#[trigger] turn_views(kept@)[a]) == all[q],
            decreases self.queue.len() - i,
        {
            assert(all[i as int] == self.queue@[i as int]@);
            assert(all.take(i as int + 1) =~= all.take(i as int).push(all[i as int]));
            proof {
                all.take(i as int).lemma_filter_push(all[i as int], pred);
            }
            let keep = match project {
                Some(p) => self.queue[i].project_id != Some(p),
                None => match runtime {
                    Some(r) => !same_opt_text(&self.queue[i].runtime_name, Some(r)),
                    None => true,
                },
            };
            if keep {
                let ghost before = turn_views(kept@);
                kept.push(self.queue[i].clone());
                proof {
                    let now_k = turn_views(kept@);
                    assert(now_k =~= before.push(all[i as int]));
                    assert forall|a: int| 0 <= a < kept@.len() implies exists|q: int| 0 <= q < i + 1 && (#[trigger] turn_views(kept@)[a]) == all[q] by {
                        if a < before.len() {
                            assert(now_k[a] == before[a]);
                        } else {
                            assert(now_k[a] == all[i as int]);
                        }
                    }
                    assert forall|a: int, c: int| 0 <= a < c < now_k.len() implies (#[trigger] now_k[a]).id < (#[trigger] now_k[c]).id by {
                        assert(now_k[a] == before[a]);
                        if c == before.len() {
                            let q = choose|q: int| 0 <= q < i && before[a] == all[q];
                            assert(all[q].id < all[i as int].id);
                        } else {
                            assert(now_k[c] == before[c]);
                        }
                    }
                }
            }
            i = i + 1;
        }
        assert(all.take(all.len() as int) =~= all);
        self.queue = kept;
    }

    /// Drops everything kept for project `project_id`: its messages, its
    /// queued turns and its efforts.
    pub fn delete_project_messages(&mut self, project_id: i64) -> (r: Result<(), ShepherdChatError>)
        requires
            message_ids_increase(old(self).message_list()),
            turn_ids_increase(old(self).turn_list()),
            efforts_wf(old(self).effort_list()),
        ensures
            r is Ok,
            message_ids_increase(final(self).message_list()),
            turn_ids_increase(final(self).turn_list()),
            efforts_wf(final(self).effort_list()),
            final(self).message_list() == old(self).message_list().filter(message_not_of_project(project_id)),
            final(self).turn_list() == old(self).turn_list().filter(turn_not_of_project(project_id)),
            final(self).effort_list() == old(self).effort_list().filter(effort_not_of_project(project_id)),
    {
        self.retain_messages(Some(project_id), None);
        self.retain_turns(Some(project_id), None);
        let ghost all = self.effort_list();
        let ghost pred = effort_not_of_project(project_id);
        let mut kept: Vec<ShepherdEffort> = Vec::new();
        let mut i: usize = 0;
        proof {
            reveal(Seq::filter);
            assert(all.take(0) =~= Seq::<EffortView>::empty());
            assert(all.take(0).filter(pred) =~= Seq::<EffortView>::empty());
            assert(effort_views(kept@) =~= Seq::<EffortView>::empty());
        }
        while i < self.efforts.len()
            invariant
                i <= self.efforts.len(),
                all == self.effort_list(),
                all.len() == self.efforts.len(),
                efforts_wf(all),
                pred == effort_not_of_project(project_id),
                effort_views(kept@) == all.take(i as int).filter(pred),
                efforts_wf(effort_views(kept@)),
                forall|a: int| 0 <= a < kept@.len() ==> exists|q: int| 0 <= q < i && (#[trigger] effort_views(kept@)[a]) == all[q],
            decreases self.efforts.len() - i,
        {
            assert(all[i as int] == self.efforts@[i as int]@);
            assert(all.take(i as int + 1) =~= all.take(i as int).push(all[i as int]));
            proof {
                all.take(i as int).lemma_filter_push(all[i as int], pred);
            }
            if self.efforts[i].project_id != project_id {
                let ghost before = effort_views(kept@);
                kept.push(self.efforts[i].clone());
                proof {
                    let now_k = effort_views(kept@);
                    assert(now_k =~= before.push(all[i as int]));
                    assert forall|a: int| 0 <= a < kept@.len() implies exists|q: int| 0 <= q < i + 1 && (#[trigger] effort_views(kept@)[a]) == all[q] by {
                        if a < before.len() {
                            assert(now_k[a] == before[a]);
                        } else {
                            assert(now_k[a] == all[i as int]);
                        }
                    }
                    assert forall|a: int, c: int| 0 <= a < c < now_k.len() implies (#[trigger] now_k[a]).id != (#[trigger] now_k[c]).id by {
                        assert(now_k[a] == before[a]);
                        if c == before.len() {
                            let q = choose|q: int| 0 <= q < i && before[a] == all[q];
                            assert(all[q].id != all[i as int].id);
                        } else {
                            assert(now_k[c] == before[c]);
                        }
                    }
                    assert forall|a: int, c: int| 0 <= a < c < now_k.len() && (#[trigger] now_k[a]).focused && (#[trigger] now_k[c]).focused
                        implies now_k[a].project_id != now_k[c].project_id by {
                        assert(now_k[a] == before[a]);
                        if c == before.len() {
                            let q = choose|q: int| 0 <= q < i && before[a] == all[q];
                            assert(all[q].focused && all[i as int].focused ==> all[q].project_id != all[i as int].project_id);
                        } else {
                            assert(now_k[c] == before[c]);
                        }
                    }
                }
            }
            i = i + 1;
        }
        assert(all.take(all.len() as int) =~= all);
        self.efforts = kept;
        Ok(())
    }

    /// Drops the messages and queued turns of the runtime `runtime_name`.
    pub fn delete_run_messages(&mut self, runtime_name: &str) -> (r: Result<(), ShepherdChatError>)
        requires
            message_ids_increase(old(self).message_list()),
            turn_ids_increase(old(self).turn_list()),
        ensures
            r is Ok,
            message_ids_increase(final(self).message_list()),
            turn_ids_increase(final(self).turn_list()),
            final(self).message_list() == old(self).message_list().filter(message_not_of_run(runtime_name@)),
            final(self).turn_list() == old(self).turn_list().filter(turn_not_of_run(runtime_name@)),
            final(self).efforts@ == old(self).efforts@,
    {
        self.retain_messages(None, Some(runtime_name));
        self.retain_turns(None, Some(runtime_name));
        Ok(())
    }
}

/// At most one effort of a project is in focus, whatever the store does:
/// focusing an effort leaves it the only one of its project in focus, and
/// reading the focus of its route then finds it.
pub proof fn lemma_focus_is_unique(es: Seq<EffortView>, project_id: i64, effort_id: Seq<char>, now: Seq<char>, k: int)
    requires
        efforts_wf(es),
        0 <= k < es.len(),
        es[k].id == effort_id,
        es[k].project_id == project_id,
    ensures
        ({
            let fs = refocused(es, project_id, effort_id, now);
            &&& fs[k].focused
            &&& forall|q: int| 0 <= q < fs.len() && q != k && (#[trigger] fs[q]).project_id == project_id ==> !fs[q].focused
            &&& es[k].archived_at is None ==> live_in(project_id, es[k].route_id)(fs[k])
        }),
{
    let fs = refocused(es, project_id, effort_id, now);
    assert forall|q: int| 0 <= q < fs.len() && q != k && (#[trigger] fs[q]).project_id == project_id implies !fs[q].focused by {
        if q < k {
            assert(es[q].id != es[k].id);
        } else {
            assert(es[k].id != es[q].id);
        }
    }
}

} // verus!
