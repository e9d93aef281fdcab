//! The run's journal: the chat threads between workers and the user with
//! each reader's read marks, the history log as stored, the amendments to
//! the request, and the output events of the workers.

use vstd::prelude::*;
use crate::run_state::{
    clone_opt, opt_view, Amendment, HistoryEntry, LogEntry, Message, RunView, SQLiteState,
    ToolCallStatus, WorkerEvent, WorkerEventType,
};
use crate::text::{concat3, decimal, str_eq, text_less, text_lt, lemma_text_order, to_decimal};

verus! {

/// How far a reader has read a thread.
#[derive(Debug)]
pub struct MessageRead {
    pub worker_name: String,
    pub thread: String,
    pub last_read_id: i64,
}

/// The records of the journal, each kind in order of id.
pub struct RunJournal {
    pub messages: Vec<Message>,
    pub reads: Vec<MessageRead>,
    pub history: Vec<HistoryEntry>,
    pub amendments: Vec<Amendment>,
    pub events: Vec<WorkerEvent>,
}

/// The contents of a message.
pub struct ThreadMessageView {
    pub id: i64,
    pub thread: Seq<char>,
    pub sender: Seq<char>,
    pub content: Seq<char>,
    pub timestamp: Seq<char>,
    pub waiting: bool,
}

/// The contents of a read mark.
pub struct ReadView {
    pub worker_name: Seq<char>,
    pub thread: Seq<char>,
    pub last_read_id: i64,
}

/// The contents of a history entry.
pub struct HistoryView {
    pub id: i64,
    pub timestamp: Seq<char>,
    pub action: Seq<char>,
    pub detail: Option<Seq<char>>,
}

/// The contents of an amendment.
pub struct AmendmentView {
    pub id: i64,
    pub message: Seq<char>,
    pub timestamp: Seq<char>,
    pub author: Seq<char>,
    pub spec_hash: Seq<char>,
}

/// The contents of a worker event.
pub struct EventView {
    pub id: i64,
    pub worker_name: Seq<char>,
    pub event_type: WorkerEventType,
    pub timestamp: Seq<char>,
    pub content: Option<Seq<char>>,
    pub tool_call_id: Option<Seq<char>>,
    pub tool_title: Option<Seq<char>>,
    pub tool_kind: Option<Seq<char>>,
    pub tool_status: Option<ToolCallStatus>,
    pub tool_input: Option<Seq<char>>,
    pub tool_output: Option<Seq<char>>,
}

/// The contents of the journal.
pub struct JournalView {
    pub messages: Seq<ThreadMessageView>,
    pub reads: Seq<ReadView>,
    pub history: Seq<HistoryView>,
    pub amendments: Seq<AmendmentView>,
    pub events: Seq<EventView>,
}

impl View for Message {
    type V = ThreadMessageView;

    open spec fn view(&self) -> ThreadMessageView {
        ThreadMessageView {
            id: self.id,
            thread: self.thread@,
            sender: self.sender@,
            content: self.content@,
            timestamp: self.timestamp@,
            waiting: self.waiting,
        }
    }
}

impl Clone for Message {
    fn clone(&self) -> (r: Self)
        ensures
            r@ == self@,
    {
        Message {
            id: self.id,
            thread: self.thread.clone(),
            sender: self.sender.clone(),
            content: self.content.clone(),
            timestamp: self.timestamp.clone(),
            waiting: self.waiting,
        }
    }
}

impl View for MessageRead {
    type V = ReadView;

    open spec fn view(&self) -> ReadView {
        ReadView { worker_name: self.worker_name@, thread: self.thread@, last_read_id: self.last_read_id }
    }
}

impl View for HistoryEntry {
    type V = HistoryView;

    open spec fn view(&self) -> HistoryView {
        HistoryView {
            id: self.id,
            timestamp: self.timestamp@,
            action: self.action@,
            detail: opt_view(self.detail),
        }
    }
}

impl Clone for HistoryEntry {
    fn clone(&self) -> (r: Self)
        ensures
            r@ == self@,
    {
        HistoryEntry {
            id: self.id,
            timestamp: self.timestamp.clone(),
            action: self.action.clone(),
            detail: clone_opt(&self.detail),
        }
    }
}

impl View for Amendment {
    type V = AmendmentView;

    open spec fn view(&self) -> AmendmentView {
        AmendmentView {
            id: self.id,
            message: self.message@,
            timestamp: self.timestamp@,
            author: self.author@,
            spec_hash: self.spec_hash@,
        }
    }
}

impl Clone for Amendment {
    fn clone(&self) -> (r: Self)
        ensures
            r@ == self@,
    {
        Amendment {
            id: self.id,
            message: self.message.clone(),
            timestamp: self.timestamp.clone(),
            author: self.author.clone(),
            spec_hash: self.spec_hash.clone(),
        }
    }
}

impl View for WorkerEvent {
    type V = EventView;

    open spec fn view(&self) -> EventView {
        EventView {
            id: self.id,
            worker_name: self.worker_name@,
            event_type: self.event_type,
            timestamp: self.timestamp@,
            content: opt_view(self.content),
            tool_call_id: opt_view(self.tool_call_id),
            tool_title: opt_view(self.tool_title),
            tool_kind: opt_view(self.tool_kind),
            tool_status: self.tool_status,
            tool_input: opt_view(self.tool_input),
            tool_output: opt_view(self.tool_output),
        }
    }
}

impl Clone for WorkerEvent {
    fn clone(&self) -> (r: Self)
        ensures
            r@ == self@,
    {
        WorkerEvent {
            id: self.id,
            worker_name: self.worker_name.clone(),
            event_type: self.event_type,
            timestamp: self.timestamp.clone(),
            content: clone_opt(&self.content),
            tool_call_id: clone_opt(&self.tool_call_id),
            tool_title: clone_opt(&self.tool_title),
            tool_kind: clone_opt(&self.tool_kind),
            tool_status: self.tool_status,
            tool_input: clone_opt(&self.tool_input),
            tool_output: clone_opt(&self.tool_output),
        }
    }
}

impl View for RunJournal {
    type V = JournalView;

    open spec fn view(&self) -> JournalView {
        JournalView {
            messages: self.messages@.map_values(|m: Message| m@),
            reads: self.reads@.map_values(|r: MessageRead| r@),
            history: self.history@.map_values(|h: HistoryEntry| h@),
            amendments: self.amendments@.map_values(|a: Amendment| a@),
            events: self.events@.map_values(|e: WorkerEvent| e@),
        }
    }
}

/// The contents of a sequence of messages.
pub open spec fn message_views(ms: Seq<Message>) -> Seq<ThreadMessageView> {
    ms.map_values(|m: Message| m@)
}

/// The contents of a sequence of read marks.
pub open spec fn read_views(rs: Seq<MessageRead>) -> Seq<ReadView> {
    rs.map_values(|r: MessageRead| r@)
}

/// The contents of a sequence of events.
pub open spec fn event_views(es: Seq<WorkerEvent>) -> Seq<EventView> {
    es.map_values(|e: WorkerEvent| e@)
}

/// The ids rise strictly along the sequence.
pub open spec fn ids_rise(ids: Seq<i64>) -> bool {
    forall|a: int, b: int| 0 <= a < b < ids.len() ==> ids[a] < ids[b]
}

/// The id a new row gets: one past the last, or 1 in an empty table.
pub open spec fn next_row_id(ids: Seq<i64>) -> int {
    if ids.len() == 0 {
        1
    } else {
        ids.last() + 1
    }
}

pub open spec fn message_ids(ms: Seq<ThreadMessageView>) -> Seq<i64> {
    ms.map_values(|m: ThreadMessageView| m.id)
}

pub open spec fn history_ids(hs: Seq<HistoryView>) -> Seq<i64> {
    hs.map_values(|h: HistoryView| h.id)
}

pub open spec fn amendment_ids(xs: Seq<AmendmentView>) -> Seq<i64> {
    xs.map_values(|x: AmendmentView| x.id)
}

pub open spec fn event_ids(es: Seq<EventView>) -> Seq<i64> {
    es.map_values(|e: EventView| e.id)
}

/// Each reader has at most one read mark per thread.
pub open spec fn reads_unique(rs: Seq<ReadView>) -> bool {
    forall|a: int, b: int|
        0 <= a < b < rs.len() ==> !((#[trigger] rs[a]).worker_name == (#[trigger] rs[b]).worker_name
            && rs[a].thread == rs[b].thread)
}

/// The journal is well formed: ids rise in each table and read marks are
/// unique per reader and thread.
pub open spec fn journal_wf(j: JournalView) -> bool {
    &&& ids_rise(message_ids(j.messages))
    &&& ids_rise(history_ids(j.history))
    &&& ids_rise(amendment_ids(j.amendments))
    &&& ids_rise(event_ids(j.events))
    &&& reads_unique(j.reads)
}

/// Whether a message is in thread `thread`.
pub open spec fn in_thread(thread: Seq<char>) -> spec_fn(ThreadMessageView) -> bool {
    |m: ThreadMessageView| m.thread == thread
}

/// The first `limit` items of `s`; a negative limit sets no bound.
pub open spec fn limited<A>(s: Seq<A>, limit: i64) -> Seq<A> {
    if limit < 0 || limit >= s.len() {
        s
    } else {
        s.take(limit as int)
    }
}

/// A journal that differs from `j` in its messages only.
pub open spec fn with_messages(j: JournalView, ms: Seq<ThreadMessageView>) -> JournalView {
    JournalView { messages: ms, ..j }
}

/// The run view whose journal is `j`, all else as in `v`.
pub open spec fn with_journal(v: RunView, j: JournalView) -> RunView {
    RunView { journal: j, ..v }
}

impl SQLiteState {
    /// The journal is well formed.
    pub open spec fn journal_wf(&self) -> bool {
        journal_wf(self@.journal)
    }

    /// Posts a message to `thread` from `sender` at `now`, marked as waiting
    /// for an answer when `waiting`, and returns its id.
    pub fn add_message(&mut self, thread: &str, sender: &str, content: &str, waiting: bool, now: &str) -> (r: i64)
        requires
            old(self).journal_wf(),
            next_row_id(message_ids(old(self)@.journal.messages)) <= i64::MAX,
        ensures
            final(self).journal_wf(),
            r == next_row_id(message_ids(old(self)@.journal.messages)),
            final(self)@ == with_journal(old(self)@, with_messages(old(self)@.journal,
                old(self)@.journal.messages.push(ThreadMessageView {
                    id: r,
                    thread: thread@,
                    sender: sender@,
                    content: content@,
                    timestamp: now@,
                    waiting,
                }))),
    {
        let ghost before = self@;
        let n = self.journal.messages.len();
        let id: i64 = if n == 0 {
            1
        } else {
            assert(message_ids(before.journal.messages).last() == self.journal.messages@[n - 1].id);
            self.journal.messages[n - 1].id + 1
        };
        self.journal.messages.push(Message {
            id,
            thread: thread.to_owned(),
            sender: sender.to_owned(),
            content: content.to_owned(),
            timestamp: now.to_owned(),
            waiting,
        });
        proof {
            let ms = self@.journal.messages;
            assert(ms =~= before.journal.messages.push(ms.last()));
            assert forall|a: int, b: int| 0 <= a < b < message_ids(ms).len() implies message_ids(ms)[a] < message_ids(ms)[b] by {
                if b == ms.len() - 1 && a < b {
                    assert(message_ids(before.journal.messages)[a] <= message_ids(before.journal.messages).last());
                } else {
                    assert(message_ids(ms)[a] == message_ids(before.journal.messages)[a]);
                    assert(message_ids(ms)[b] == message_ids(before.journal.messages)[b]);
                }
            }
            assert(self@ =~= with_journal(before, with_messages(before.journal, ms)));
        }
        id
    }
}

/// Whether a message is picked by a query: in `thread` if one is given,
/// with an id above `after_id` if one is given, stamped after `since` if one
/// is given, and not sent by `exclude` if one is given.
pub open spec fn picked(
    thread: Option<Seq<char>>,
    after_id: Option<i64>,
    since: Option<Seq<char>>,
    exclude: Option<Seq<char>>,
) -> spec_fn(ThreadMessageView) -> bool {
    |m: ThreadMessageView|
        {
            &&& (thread matches Some(t) ==> m.thread == t)
            &&& (after_id matches Some(a) ==> m.id > a)
            &&& (since matches Some(x) ==> text_lt(x, m.timestamp))
            &&& (exclude matches Some(e) ==> m.sender != e)
        }
}

/// The characters of an optional string slice.
pub open spec fn opt_chars(o: Option<&str>) -> Option<Seq<char>> {
    match o {
        Some(s) => Some(s@),
        None => None,
    }
}

impl SQLiteState {
    /// The messages that `picked` selects, in order of id.
    fn select_messages(&self, thread: Option<&str>, after_id: Option<i64>, since: Option<&str>, exclude: Option<&str>) -> (r: Vec<Message>)
        ensures
            message_views(r@) == self@.journal.messages.filter(
                picked(opt_chars(thread), after_id, opt_chars(since), opt_chars(exclude)),
            ),
    {
        let ghost pred = picked(opt_chars(thread), after_id, opt_chars(since), opt_chars(exclude));
        let ghost all = self@.journal.messages;
        let mut out: Vec<Message> = Vec::new();
        let mut i: usize = 0;
        proof {
            reveal(Seq::filter);
            assert(all.take(0) =~= Seq::<ThreadMessageView>::empty());
            assert(all.take(0).filter(pred) =~= Seq::<ThreadMessageView>::empty());
            assert(message_views(out@) =~= Seq::<ThreadMessageView>::empty());
        }
        while i < self.journal.messages.len()
            invariant
                i <= self.journal.messages.len(),
                all == self@.journal.messages,
                all.len() == self.journal.messages.len(),
                pred == picked(opt_chars(thread), after_id, opt_chars(since), opt_chars(exclude)),
                message_views(out@) == all.take(i as int).filter(pred),
            decreases self.journal.messages.len() - i,
        {
            let m = &self.journal.messages[i];
            assert(all[i as int] == m@);
            assert(all.take(i as int + 1) =~= all.take(i as int).push(all[i as int]));
            proof {
                all.take(i as int).lemma_filter_push(all[i as int], pred);
            }
            let in_t = match thread {
                Some(t) => str_eq(m.thread.as_str(), t),
                None => true,
            };
            let after = match after_id {
                Some(a) => m.id > a,
                None => true,
            };
            let later = match since {
                Some(x) => text_less(x, m.timestamp.as_str()),
                None => true,
            };
            let other = match exclude {
                Some(e) => !str_eq(m.sender.as_str(), e),
                None => true,
            };
            if in_t && after && later && other {
                let ghost before = out@;
                out.push(m.clone());
                assert(message_views(out@) =~= message_views(before).push(all[i as int]));
            }
            i = i + 1;
        }
        assert(all.take(all.len() as int) =~= all);
        out
    }

    /// The first `limit` messages of `thread`, in order of id; a negative
    /// limit sets no bound.
    pub fn get_messages(&self, thread: &str, limit: i64) -> (r: Vec<Message>)
        ensures
            message_views(r@) == limited(self@.journal.messages.filter(picked(Some(thread@), None, None, None)), limit),
    {
        let mut out = self.select_messages(Some(thread), None, None, None);
        if limit >= 0 && (limit as u64) < (out.len() as u64) {
            let ghost before = out@;
            out.truncate(limit as usize);
            assert(message_views(out@) =~= message_views(before).take(limit as int));
        }
        out
    }

    /// The messages stamped after `since`, in order of id, leaving out those
    /// of `exclude_sender` when one is given.
    pub fn get_messages_since(&self, since: &str, exclude_sender: Option<&str>) -> (r: Vec<Message>)
        ensures
            message_views(r@) == self@.journal.messages.filter(picked(None, None, Some(since@), opt_chars(exclude_sender))),
    {
        self.select_messages(None, None, Some(since), exclude_sender)
    }

    /// How many messages `thread` holds.
    pub fn get_messages_count(&self, thread: &str) -> (r: i64)
        requires
            self@.journal.messages.len() <= i64::MAX,
        ensures
            r == self@.journal.messages.filter(picked(Some(thread@), None, None, None)).len(),
    {
        self.get_thread_message_count(thread)
    }

    /// How many messages `thread` holds.
    pub fn get_thread_message_count(&self, thread: &str) -> (r: i64)
        requires
            self@.journal.messages.len() <= i64::MAX,
        ensures
            r == self@.journal.messages.filter(picked(Some(thread@), None, None, None)).len(),
    {
        let v = self.select_messages(Some(thread), None, None, None);
        proof {
            broadcast use vstd::seq_lib::group_filter_ensures;
            assert(v@.len() == message_views(v@).len());
            assert(self@.journal.messages.filter(picked(Some(thread@), None, None, None)).len() <= self@.journal.messages.len());
        }
        v.len() as i64
    }
}

/// Whether position `k` of `rs` is the read mark of `reader` on `thread`.
pub open spec fn has_mark(rs: Seq<ReadView>, reader: Seq<char>, thread: Seq<char>, k: int) -> bool {
    0 <= k < rs.len() && rs[k].worker_name == reader && rs[k].thread == thread
}

/// The id up to which `reader` has read `thread`: that of its read mark, or
/// 0 without one.
pub open spec fn last_read(rs: Seq<ReadView>, reader: Seq<char>, thread: Seq<char>) -> i64 {
    if exists|k: int| has_mark(rs, reader, thread, k) {
        rs[choose|k: int| has_mark(rs, reader, thread, k)].last_read_id
    } else {
        0
    }
}

/// The messages of `thread` that `reader` has not read: past its read mark
/// and sent by someone else, in order of id.
pub open spec fn unread_in(j: JournalView, thread: Seq<char>, reader: Seq<char>) -> Seq<ThreadMessageView> {
    j.messages.filter(picked(Some(thread), Some(last_read(j.reads, reader, thread)), None, Some(reader)))
}

/// The highest message id of `thread` (the last, as ids rise), or 0 when the
/// thread is empty.
pub open spec fn thread_max_id(ms: Seq<ThreadMessageView>, thread: Seq<char>) -> i64 {
    let f = ms.filter(picked(Some(thread), None, None, None));
    if f.len() == 0 {
        0
    } else {
        f.last().id
    }
}

/// The read marks after `reader` read `thread` up to `upto`: its mark is
/// moved, or a new one is added.
pub open spec fn marked(rs: Seq<ReadView>, reader: Seq<char>, thread: Seq<char>, upto: i64) -> Seq<ReadView> {
    if exists|k: int| has_mark(rs, reader, thread, k) {
        let k = choose|k: int| has_mark(rs, reader, thread, k);
        rs.update(k, ReadView { last_read_id: upto, ..rs[k] })
    } else {
        rs.push(ReadView { worker_name: reader, thread, last_read_id: upto })
    }
}

/// `ts` lists the threads of `ms`: each once, in text order.
pub open spec fn lists_threads(ms: Seq<ThreadMessageView>, ts: Seq<Seq<char>>) -> bool {
    &&& forall|a: int, b: int| 0 <= a < b < ts.len() ==> text_lt(#[trigger] ts[a], #[trigger] ts[b])
    &&& forall|t: Seq<char>| ts.contains(t) <==> exists|k: int| 0 <= k < ms.len() && (#[trigger] ms[k]).thread == t
}

/// The unread messages of `reader` in the threads `ts`, thread after thread.
pub open spec fn unread_over(j: JournalView, ts: Seq<Seq<char>>, reader: Seq<char>) -> Seq<ThreadMessageView>
    decreases ts.len(),
{
    if ts.len() == 0 {
        Seq::empty()
    } else {
        unread_over(j, ts.drop_last(), reader) + unread_in(j, ts.last(), reader)
    }
}

impl SQLiteState {
    /// Position of the read mark of `reader` on `thread`, if any.
    fn find_mark(&self, reader: &str, thread: &str) -> (r: Option<usize>)
        ensures
            match r {
                Some(k) => has_mark(self@.journal.reads, reader@, thread@, k as int),
                None => forall|k: int| !has_mark(self@.journal.reads, reader@, thread@, k),
            },
    {
        let mut k: usize = 0;
        while k < self.journal.reads.len()
            invariant
                k <= self.journal.reads.len(),
                forall|q: int| 0 <= q < k ==> !has_mark(self@.journal.reads, reader@, thread@, q),
            decreases self.journal.reads.len() - k,
        {
            let m = &self.journal.reads[k];
            assert(self@.journal.reads[k as int] == m@);
            if str_eq(m.worker_name.as_str(), reader) && str_eq(m.thread.as_str(), thread) {
                return Some(k);
            }
            k = k + 1;
        }
        None
    }

    /// The id up to which `reader` has read `thread`.
    fn read_mark(&self, reader: &str, thread: &str) -> (r: i64)
        requires
            self.journal_wf(),
        ensures
            r == last_read(self@.journal.reads, reader@, thread@),
    {
        match self.find_mark(reader, thread) {
            Some(k) => {
                proof {
                    let rs = self@.journal.reads;
                    let c = choose|q: int| has_mark(rs, reader@, thread@, q);
                    assert(has_mark(rs, reader@, thread@, c));
                    if c < k {
                        assert(!(rs[c].worker_name == rs[k as int].worker_name && rs[c].thread == rs[k as int].thread));
                    } else if c > k {
                        assert(!(rs[k as int].worker_name == rs[c].worker_name && rs[k as int].thread == rs[c].thread));
                    }
                    assert(rs[k as int] == self.journal.reads@[k as int]@);
                }
                self.journal.reads[k].last_read_id
            },
            None => 0,
        }
    }

    /// The messages of `thread` that `reader` has not read, in order of id.
    pub fn get_unread_messages(&self, thread: &str, reader: &str) -> (r: Vec<Message>)
        requires
            self.journal_wf(),
        ensures
            message_views(r@) == unread_in(self@.journal, thread@, reader@),
    {
        let last = self.read_mark(reader, thread);
        self.select_messages(Some(thread), Some(last), None, Some(reader))
    }

    /// Marks `thread` as read by `reader` up to `up_to_id`, or up to its
    /// highest message when none is given.
    pub fn mark_messages_read(&mut self, thread: &str, reader: &str, up_to_id: Option<i64>)
        requires
            old(self).journal_wf(),
        ensures
            final(self).journal_wf(),
            final(self)@ == with_journal(old(self)@, JournalView {
                reads: marked(
                    old(self)@.journal.reads,
                    reader@,
                    thread@,
                    match up_to_id {
                        Some(v) => v,
                        None => thread_max_id(old(self)@.journal.messages, thread@),
                    },
                ),
                ..old(self)@.journal
            }),
    {
        let ghost before = self@;
        let upto: i64 = match up_to_id {
            Some(v) => v,
            None => {
                let v = self.select_messages(Some(thread), None, None, None);
                let n = v.len();
                if n == 0 {
                    0
                } else {
                    assert(message_views(v@).last() == v@[n - 1]@);
                    v[n - 1].id
                }
            },
        };
        let ghost rs = before.journal.reads;
        match self.find_mark(reader, thread) {
            Some(k) => {
                proof {
                    let c = choose|q: int| has_mark(rs, reader@, thread@, q);
                    assert(has_mark(rs, reader@, thread@, c));
                    if c < k {
                        assert(!(rs[c].worker_name == rs[k as int].worker_name && rs[c].thread == rs[k as int].thread));
                    } else if c > k {
                        assert(!(rs[k as int].worker_name == rs[c].worker_name && rs[k as int].thread == rs[c].thread));
                    }
                }
                let mut m = self.journal.reads.remove(k);
                m.last_read_id = upto;
                self.journal.reads.insert(k, m);
                proof {
                    let nrs = self@.journal.reads;
                    assert(nrs =~= rs.update(k as int, ReadView { last_read_id: upto, ..rs[k as int] }));
                    assert forall|a: int, b: int| 0 <= a < b < nrs.len() implies !((#[trigger] nrs[a]).worker_name == (#[trigger] nrs[b]).worker_name
                        && nrs[a].thread == nrs[b].thread) by {
                        assert(rs[a].worker_name == nrs[a].worker_name && rs[a].thread == nrs[a].thread);
                        assert(rs[b].worker_name == nrs[b].worker_name && rs[b].thread == nrs[b].thread);
                    }
                }
            },
            None => {
                self.journal.reads.push(MessageRead {
                    worker_name: reader.to_owned(),
                    thread: thread.to_owned(),
                    last_read_id: upto,
                });
                proof {
                    let nrs = self@.journal.reads;
                    let nm = ReadView { worker_name: reader@, thread: thread@, last_read_id: upto };
                    assert(nrs =~= rs.push(nm));
                    assert forall|a: int, b: int| 0 <= a < b < nrs.len() implies !((#[trigger] nrs[a]).worker_name == (#[trigger] nrs[b]).worker_name
                        && nrs[a].thread == nrs[b].thread) by {
                        if b == rs.len() {
                            assert(!has_mark(rs, reader@, thread@, a));
                        } else {
                            assert(nrs[a] == rs[a] && nrs[b] == rs[b]);
                        }
                    }
                }
            },
        }
        proof {
            assert(self@.journal =~= JournalView { reads: self@.journal.reads, ..before.journal });
            assert(self@ =~= with_journal(before, JournalView { reads: self@.journal.reads, ..before.journal }));
        }
    }
}

impl SQLiteState {
    /// The names of the threads that hold messages, each once, in text
    /// order.
    pub fn get_threads(&self) -> (r: Vec<String>)
        ensures
            lists_threads(self@.journal.messages, crate::text::views(r@)),
    {
        let ghost ms = self@.journal.messages;
        let mut out: Vec<String> = Vec::new();
        let mut i: usize = 0;
        while i < self.journal.messages.len()
            invariant
                i <= self.journal.messages.len(),
                ms == self@.journal.messages,
                ms.len() == self.journal.messages.len(),
                forall|a: int, b: int| 0 <= a < b < out@.len() ==> text_lt(#[trigger] out@[a]@, #[trigger] out@[b]@),
                forall|t: Seq<char>| crate::text::views(out@).contains(t) <==> exists|k: int| 0 <= k < i && (#[trigger] ms[k]).thread == t,
            decreases self.journal.messages.len() - i,
        {
            let t = &self.journal.messages[i].thread;
            assert(ms[i as int].thread == t@);
            let ghost old_out = out@;
            let mut p: usize = 0;
            while p < out.len()
                invariant
                    p <= out.len(),
                    out@ == old_out,
                    forall|q: int| 0 <= q < p ==> text_lt(#[trigger] out@[q]@, t@),
                ensures
                    p <= out.len(),
                    out@ == old_out,
                    forall|q: int| 0 <= q < p ==> text_lt(#[trigger] out@[q]@, t@),
                    p < out.len() ==> !text_lt(out@[p as int]@, t@),
                decreases out.len() - p,
            {
                if !text_less(out[p].as_str(), t.as_str()) {
                    break;
                }
                p = p + 1;
            }
            let present = p < out.len() && str_eq(out[p].as_str(), t.as_str());
            if !present {
                proof {
                    if p < old_out.len() {
                        lemma_text_order(old_out[p as int]@, t@, t@);
                        assert(text_lt(t@, old_out[p as int]@));
                    }
                }
                out.insert(p, t.clone());
                proof {
                    let no = out@;
                    assert(no =~= old_out.insert(p as int, no[p as int]));
                    assert forall|a: int, b: int| 0 <= a < b < no.len() implies text_lt(#[trigger] no[a]@, #[trigger] no[b]@) by {
                        if b < p {
                            assert(no[a] == old_out[a] && no[b] == old_out[b]);
                        } else if b == p {
                            assert(no[a] == old_out[a]);
                        } else if a == p {
                            assert(no[b] == old_out[b - 1]);
                            if b - 1 > p {
                                lemma_text_order(t@, old_out[p as int]@, old_out[b - 1]@);
                            }
                        } else if a < p {
                            assert(no[a] == old_out[a] && no[b] == old_out[b - 1]);
                            lemma_text_order(old_out[a]@, t@, old_out[b - 1]@);
                            if b - 1 >= p as int {
                                if b - 1 > p {
                                    lemma_text_order(t@, old_out[p as int]@, old_out[b - 1]@);
                                }
                            }
                        } else {
                            assert(no[a] == old_out[a - 1] && no[b] == old_out[b - 1]);
                        }
                    }
                    assert forall|x: Seq<char>| crate::text::views(no).contains(x) <==> exists|k: int| 0 <= k < i + 1 && (#[trigger] ms[k]).thread == x by {
                        if crate::text::views(no).contains(x) {
                            let q = choose|q: int| 0 <= q < crate::text::views(no).len() && crate::text::views(no)[q] == x;
                            if q < p {
                                assert(crate::text::views(old_out)[q] == x);
                                assert(crate::text::views(old_out).contains(x));
                            } else if q == p {
                                assert(ms[i as int].thread == x);
                            } else {
                                assert(crate::text::views(old_out)[q - 1] == x);
                                assert(crate::text::views(old_out).contains(x));
                            }
                        }
                        if exists|k: int| 0 <= k < i + 1 && (#[trigger] ms[k]).thread == x {
                            let k = choose|k: int| 0 <= k < i + 1 && (#[trigger] ms[k]).thread == x;
                            if k == i {
                                assert(crate::text::views(no)[p as int] == x);
                            } else {
                                assert(crate::text::views(old_out).contains(x));
                                let q = choose|q: int| 0 <= q < crate::text::views(old_out).len() && crate::text::views(old_out)[q] == x;
                                if q < p {
                                    assert(crate::text::views(no)[q] == x);
                                } else {
                                    assert(crate::text::views(no)[q + 1] == x);
                                }
                            }
                        }
                    }
                }
            } else {
                proof {
                    assert forall|x: Seq<char>| crate::text::views(out@).contains(x) <==> exists|k: int| 0 <= k < i + 1 && (#[trigger] ms[k]).thread == x by {
                        if exists|k: int| 0 <= k < i + 1 && (#[trigger] ms[k]).thread == x {
                            let k = choose|k: int| 0 <= k < i + 1 && (#[trigger] ms[k]).thread == x;
                            if k == i {
                                assert(crate::text::views(out@)[p as int] == x);
                            }
                        }
                    }
                }
            }
            i = i + 1;
        }
        out
    }

    /// Every message that `reader` has not read, thread after thread in the
    /// order of `get_threads`, each thread's in order of id.
    pub fn get_all_unread_messages(&self, reader: &str) -> (r: Vec<Message>)
        requires
            self.journal_wf(),
        ensures
            exists|ts: Seq<Seq<char>>| lists_threads(self@.journal.messages, ts)
                && message_views(r@) == unread_over(self@.journal, ts, reader@),
    {
        let threads = self.get_threads();
        let ghost ts = crate::text::views(threads@);
        let mut out: Vec<Message> = Vec::new();
        let mut i: usize = 0;
        assert(ts.take(0) =~= Seq::<Seq<char>>::empty());
        assert(message_views(out@) =~= Seq::<ThreadMessageView>::empty());
        while i < threads.len()
            invariant
                i <= threads.len(),
                ts == crate::text::views(threads@),
                self.journal_wf(),
                message_views(out@) == unread_over(self@.journal, ts.take(i as int), reader@),
            decreases threads.len() - i,
        {
            let mut u = self.get_unread_messages(threads[i].as_str(), reader);
            let ghost before = out@;
            let ghost uv = u@;
            out.append(&mut u);
            proof {
                assert(ts.take(i as int + 1).drop_last() =~= ts.take(i as int));
                assert(ts.take(i as int + 1).last() == threads@[i as int]@);
                assert(message_views(out@) =~= message_views(before) + message_views(uv));
            }
            i = i + 1;
        }
        assert(ts.take(ts.len() as int) =~= ts);
        out
    }
}

/// Whether a message's id is not among `ids`.
pub open spec fn not_listed(ids: Seq<i64>) -> spec_fn(ThreadMessageView) -> bool {
    |m: ThreadMessageView| !ids.contains(m.id)
}

/// Whether a read mark is on some other thread than `thread`.
pub open spec fn mark_elsewhere(thread: Seq<char>) -> spec_fn(ReadView) -> bool {
    |r: ReadView| r.thread != thread
}

/// The history record of a compaction of `n` messages of `thread`.
pub open spec fn compaction_entry(n: nat, thread: Seq<char>) -> (Seq<char>, Option<Seq<char>>) {
    ("compaction"@, Some("Compacted "@ + decimal(n) + " messages in thread '"@ + thread + "'"@))
}

/// The messages after a compaction of `thread`: those not listed in `ids`,
/// then the summary `content` posted at `now` by the system sender.
pub open spec fn compacted(ms: Seq<ThreadMessageView>, ids: Seq<i64>, thread: Seq<char>, content: Seq<char>, now: Seq<char>) -> Seq<ThreadMessageView> {
    let kept = ms.filter(not_listed(ids));
    kept.push(ThreadMessageView {
        id: next_row_id(message_ids(kept)) as i64,
        thread,
        sender: "hirsel"@,
        content,
        timestamp: now,
        waiting: false,
    })
}

impl SQLiteState {
    /// Replaces the messages `ids_to_delete` with the summary
    /// `summary_content`, posted to `thread` at `now`; every read mark on
    /// `thread` is dropped and the compaction is recorded. An empty list
    /// changes nothing.
    pub fn compact_messages(&mut self, thread: &str, ids_to_delete: &[i64], summary_content: &str, now: &str)
        requires
            old(self).journal_wf(),
            next_row_id(message_ids(old(self)@.journal.messages)) <= i64::MAX,
        ensures
            final(self).journal_wf(),
            ids_to_delete@.len() == 0 ==> final(self)@ == old(self)@,
            ids_to_delete@.len() > 0 ==> final(self)@ == (RunView {
                journal: JournalView {
                    messages: compacted(old(self)@.journal.messages, ids_to_delete@, thread@, summary_content@, now@),
                    reads: old(self)@.journal.reads.filter(mark_elsewhere(thread@)),
                    ..old(self)@.journal
                },
                log: old(self)@.log.push(compaction_entry(ids_to_delete@.len(), thread@)),
                ..old(self)@
            }),
    {
        if ids_to_delete.len() == 0 {
            return;
        }
        let ghost before = self@;
        let ghost all = before.journal.messages;
        let ghost pred = not_listed(ids_to_delete@);
        let mut kept: Vec<Message> = Vec::new();
        let mut i: usize = 0;
        proof {
            reveal(Seq::filter);
            assert(all.take(0) =~= Seq::<ThreadMessageView>::empty());
            assert(all.take(0).filter(pred) =~= Seq::<ThreadMessageView>::empty());
            assert(message_views(kept@) =~= Seq::<ThreadMessageView>::empty());
        }
        while i < self.journal.messages.len()
            invariant
                i <= self.journal.messages.len(),
                self@ == before,
                all == before.journal.messages,
                all.len() == self.journal.messages.len(),
                ids_rise(message_ids(all)),
                pred == not_listed(ids_to_delete@),
                message_views(kept@) == all.take(i as int).filter(pred),
                ids_rise(message_ids(message_views(kept@))),
                forall|a: int| 0 <= a < kept@.len() ==> exists|q: int| 0 <= q < i && (#[trigger] message_views(kept@)[a]) == all[q],
            decreases self.journal.messages.len() - i,
        {
            let m = &self.journal.messages[i];
            assert(all[i as int] == m@);
            assert(all.take(i as int + 1) =~= all.take(i as int).push(all[i as int]));
            proof {
                all.take(i as int).lemma_filter_push(all[i as int], pred);
            }
            let mut listed = false;
            let mut k: usize = 0;
            while k < ids_to_delete.len()
                invariant
                    k <= ids_to_delete.len(),
                    listed <==> exists|q: int| 0 <= q < k && ids_to_delete@[q] == m.id,
                decreases ids_to_delete.len() - k,
            {
                if ids_to_delete[k] == m.id {
                    listed = true;
                }
                k = k + 1;
            }
            assert(listed <==> ids_to_delete@.contains(m.id));
            if !listed {
                let ghost bk = message_views(kept@);
                kept.push(m.clone());
                proof {
                    let nk = message_views(kept@);
                    assert(nk =~= bk.push(all[i as int]));
                    assert forall|a: int| 0 <= a < kept@.len() implies exists|q: int| 0 <= q < i + 1 && (#[trigger] message_views(kept@)[a]) == all[q] by {
                        if a < bk.len() {
                            assert(nk[a] == bk[a]);
                        } else {
                            assert(nk[a] == all[i as int]);
                        }
                    }
                    assert forall|a: int, b: int| 0 <= a < b < message_ids(nk).len() implies message_ids(nk)[a] < message_ids(nk)[b] by {
                        assert(nk[a] == bk[a]);
                        if b == bk.len() {
                            let q = choose|q: int| 0 <= q < i && bk[a] == all[q];
                            assert(message_ids(all)[q] < message_ids(all)[i as int]);
                        } else {
                            assert(nk[b] == bk[b]);
                            assert(message_ids(bk)[a] < message_ids(bk)[b]);
                        }
                    }
                }
            }
            i = i + 1;
        }
        assert(all.take(all.len() as int) =~= all);
        let ghost kv = message_views(kept@);
        let n = kept.len();
        let id: i64 = if n == 0 {
            1
        } else {
            proof {
                let q = choose|q: int| 0 <= q < all.len() && kv[n - 1] == all[q];
                assert(message_ids(all)[q] <= message_ids(all).last());
            }
            assert(message_ids(kv).last() == kept@[n - 1].id);
            kept[n - 1].id + 1
        };
        kept.push(Message {
            id,
            thread: thread.to_owned(),
            sender: "hirsel".to_owned(),
            content: summary_content.to_owned(),
            timestamp: now.to_owned(),
            waiting: false,
        });
        proof {
            reveal_strlit("hirsel");
            let nk = message_views(kept@);
            assert(nk =~= compacted(all, ids_to_delete@, thread@, summary_content@, now@));
            assert forall|a: int, b: int| 0 <= a < b < message_ids(nk).len() implies message_ids(nk)[a] < message_ids(nk)[b] by {
                assert(nk[a] == kv[a]);
                if b == kv.len() {
                    assert(message_ids(kv)[a] <= message_ids(kv).last());
                } else {
                    assert(nk[b] == kv[b]);
                    assert(message_ids(kv)[a] < message_ids(kv)[b]);
                }
            }
        }
        self.journal.messages = kept;
        let ghost rs = before.journal.reads;
        let ghost rpred = mark_elsewhere(thread@);
        let mut marks: Vec<MessageRead> = Vec::new();
        let mut j: usize = 0;
        proof {
            reveal(Seq::filter);
            assert(rs.take(0) =~= Seq::<ReadView>::empty());
            assert(rs.take(0).filter(rpred) =~= Seq::<ReadView>::empty());
            assert(read_views(marks@) =~= Seq::<ReadView>::empty());
        }
        while j < self.journal.reads.len()
            invariant
                j <= self.journal.reads.len(),
                rs == self@.journal.reads,
                rs.len() == self.journal.reads.len(),
                reads_unique(rs),
                rpred == mark_elsewhere(thread@),
                read_views(marks@) == rs.take(j as int).filter(rpred),
                reads_unique(read_views(marks@)),
                forall|a: int| 0 <= a < marks@.len() ==> exists|q: int| 0 <= q < j && (#[trigger] read_views(marks@)[a]) == rs[q],
            decreases self.journal.reads.len() - j,
        {
            let r = &self.journal.reads[j];
            assert(rs[j as int] == r@);
            assert(rs.take(j as int + 1) =~= rs.take(j as int).push(rs[j as int]));
            proof {
                rs.take(j as int).lemma_filter_push(rs[j as int], rpred);
            }
            if !str_eq(r.thread.as_str(), thread) {
                let ghost bm = read_views(marks@);
                marks.push(MessageRead {
                    worker_name: r.worker_name.clone(),
                    thread: r.thread.clone(),
                    last_read_id: r.last_read_id,
                });
                proof {
                    let nm = read_views(marks@);
                    assert(nm =~= bm.push(rs[j as int]));
                    assert forall|a: int| 0 <= a < marks@.len() implies exists|q: int| 0 <= q < j + 1 && (#[trigger] read_views(marks@)[a]) == rs[q] by {
                        if a < bm.len() {
                            assert(nm[a] == bm[a]);
                        } else {
                            assert(nm[a] == rs[j as int]);
                        }
                    }
                    assert forall|a: int, b: int| 0 <= a < b < nm.len() implies !((#[trigger] nm[a]).worker_name == (#[trigger] nm[b]).worker_name
                        && nm[a].thread == nm[b].thread) by {
                        assert(nm[a] == bm[a]);
                        if b == bm.len() {
                            let q = choose|q: int| 0 <= q < j && bm[a] == rs[q];
                            assert(!(rs[q].worker_name == rs[j as int].worker_name && rs[q].thread == rs[j as int].thread));
                        } else {
                            assert(nm[b] == bm[b]);
                        }
                    }
                }
            }
            j = j + 1;
        }
        assert(rs.take(rs.len() as int) =~= rs);
        self.journal.reads = marks;
        let count = to_decimal(ids_to_delete.len() as u64);
        let head = concat3("Compacted ", count.as_str(), " messages in thread '");
        let detail = concat3(head.as_str(), thread, "'");
        let ghost lg = self@.log;
        self.log.push(LogEntry { action: "compaction".to_owned(), detail: Some(detail) });
        proof {
            assert(self@.log =~= lg.push(compaction_entry(ids_to_delete@.len(), thread@)));
            assert(self@.journal =~= JournalView {
                messages: compacted(all, ids_to_delete@, thread@, summary_content@, now@),
                reads: rs.filter(rpred),
                ..before.journal
            });
        }
    }
}

/// Whether an event belongs to `worker_name` and comes after `after_id`.
pub open spec fn event_of(worker_name: Seq<char>, after_id: i64) -> spec_fn(EventView) -> bool {
    |e: EventView| e.worker_name == worker_name && e.id > after_id
}

/// Whether an event belongs to some other worker than `worker_name`.
pub open spec fn event_not_of(worker_name: Seq<char>) -> spec_fn(EventView) -> bool {
    |e: EventView| e.worker_name != worker_name
}

/// A new event of `worker_name` at `now`, of type `event_type`; the text and
/// tool fields not given are empty.
pub open spec fn new_event(
    id: i64,
    worker_name: Seq<char>,
    event_type: WorkerEventType,
    now: Seq<char>,
    content: Option<Seq<char>>,
    tool_call_id: Option<Seq<char>>,
    tool_title: Option<Seq<char>>,
    tool_kind: Option<Seq<char>>,
    tool_status: Option<ToolCallStatus>,
    tool_input: Option<Seq<char>>,
    tool_output: Option<Seq<char>>,
) -> EventView {
    EventView {
        id,
        worker_name,
        event_type,
        timestamp: now,
        content,
        tool_call_id,
        tool_title,
        tool_kind,
        tool_status,
        tool_input,
        tool_output,
    }
}

/// A copy of an optional string slice.
pub(crate) fn own_opt(o: Option<&str>) -> (r: Option<String>)
    ensures
        opt_view(r) == opt_chars(o),
{
    match o {
        Some(s) => Some(s.to_owned()),
        None => None,
    }
}

impl SQLiteState {
    /// Appends `e` with the next event id and returns that id.
    fn push_event(&mut self, e: WorkerEvent) -> (r: i64)
        requires
            old(self).journal_wf(),
            next_row_id(event_ids(old(self)@.journal.events)) <= i64::MAX,
        ensures
            final(self).journal_wf(),
            r == next_row_id(event_ids(old(self)@.journal.events)),
            final(self)@ == with_journal(old(self)@, JournalView {
                events: old(self)@.journal.events.push(EventView { id: r, ..e@ }),
                ..old(self)@.journal
            }),
    {
        let ghost before = self@;
        let n = self.journal.events.len();
        let id: i64 = if n == 0 {
            1
        } else {
            assert(event_ids(before.journal.events).last() == self.journal.events@[n - 1].id);
            self.journal.events[n - 1].id + 1
        };
        let mut e = e;
        e.id = id;
        self.journal.events.push(e);
        proof {
            let es = self@.journal.events;
            let bs = before.journal.events;
            assert(es =~= bs.push(es.last()));
            assert forall|a: int, b: int| 0 <= a < b < event_ids(es).len() implies event_ids(es)[a] < event_ids(es)[b] by {
                if b == es.len() - 1 {
                    assert(event_ids(bs)[a] <= event_ids(bs).last());
                } else {
                    assert(event_ids(es)[a] == event_ids(bs)[a]);
                    assert(event_ids(es)[b] == event_ids(bs)[b]);
                }
            }
            assert(self@ =~= with_journal(before, JournalView { events: es, ..before.journal }));
        }
        id
    }

    /// Records the text output `content` of `worker_name` at `now` and
    /// returns the event's id.
    pub fn insert_text_event(&mut self, worker_name: &str, content: &str, now: &str) -> (r: i64)
        requires
            old(self).journal_wf(),
            next_row_id(event_ids(old(self)@.journal.events)) <= i64::MAX,
        ensures
            final(self).journal_wf(),
            r == next_row_id(event_ids(old(self)@.journal.events)),
            final(self)@ == with_journal(old(self)@, JournalView {
                events: old(self)@.journal.events.push(new_event(r, worker_name@, WorkerEventType::Text, now@,
                    Some(content@), None, None, None, None, None, None)),
                ..old(self)@.journal
            }),
    {
        self.push_event(WorkerEvent {
            id: 0,
            worker_name: worker_name.to_owned(),
            event_type: WorkerEventType::Text,
            timestamp: now.to_owned(),
            content: Some(content.to_owned()),
            tool_call_id: None,
            tool_title: None,
            tool_kind: None,
            tool_status: None,
            tool_input: None,
            tool_output: None,
        })
    }

    /// Records the reasoning `content` of `worker_name` at `now` and returns
    /// the event's id.
    pub fn insert_thought_event(&mut self, worker_name: &str, content: &str, now: &str) -> (r: i64)
        requires
            old(self).journal_wf(),
            next_row_id(event_ids(old(self)@.journal.events)) <= i64::MAX,
        ensures
            final(self).journal_wf(),
            r == next_row_id(event_ids(old(self)@.journal.events)),
            final(self)@ == with_journal(old(self)@, JournalView {
                events: old(self)@.journal.events.push(new_event(r, worker_name@, WorkerEventType::Thought, now@,
                    Some(content@), None, None, None, None, None, None)),
                ..old(self)@.journal
            }),
    {
        self.push_event(WorkerEvent {
            id: 0,
            worker_name: worker_name.to_owned(),
            event_type: WorkerEventType::Thought,
            timestamp: now.to_owned(),
            content: Some(content.to_owned()),
            tool_call_id: None,
            tool_title: None,
            tool_kind: None,
            tool_status: None,
            tool_input: None,
            tool_output: None,
        })
    }

    /// Records the start of the tool call `tool_call_id` of `worker_name` at
    /// `now` and returns the event's id.
    pub fn insert_tool_start_event(
        &mut self,
        worker_name: &str,
        tool_call_id: &str,
        title: &str,
        kind: Option<&str>,
        status: ToolCallStatus,
        input: Option<&str>,
        now: &str,
    ) -> (r: i64)
        requires
            old(self).journal_wf(),
            next_row_id(event_ids(old(self)@.journal.events)) <= i64::MAX,
        ensures
            final(self).journal_wf(),
            r == next_row_id(event_ids(old(self)@.journal.events)),
            final(self)@ == with_journal(old(self)@, JournalView {
                events: old(self)@.journal.events.push(new_event(r, worker_name@, WorkerEventType::ToolStart, now@,
                    None, Some(tool_call_id@), Some(title@), opt_chars(kind), Some(status), opt_chars(input), None)),
                ..old(self)@.journal
            }),
    {
        self.push_event(WorkerEvent {
            id: 0,
            worker_name: worker_name.to_owned(),
            event_type: WorkerEventType::ToolStart,
            timestamp: now.to_owned(),
            content: None,
            tool_call_id: Some(tool_call_id.to_owned()),
            tool_title: Some(title.to_owned()),
            tool_kind: own_opt(kind),
            tool_status: Some(status),
            tool_input: own_opt(input),
            tool_output: None,
        })
    }

    /// Records an update of the tool call `tool_call_id` of `worker_name` at
    /// `now` and returns the event's id.
    pub fn insert_tool_update_event(
        &mut self,
        worker_name: &str,
        tool_call_id: &str,
        title: Option<&str>,
        status: Option<ToolCallStatus>,
        output: Option<&str>,
        now: &str,
    ) -> (r: i64)
        requires
            old(self).journal_wf(),
            next_row_id(event_ids(old(self)@.journal.events)) <= i64::MAX,
        ensures
            final(self).journal_wf(),
            r == next_row_id(event_ids(old(self)@.journal.events)),
            final(self)@ == with_journal(old(self)@, JournalView {
                events: old(self)@.journal.events.push(new_event(r, worker_name@, WorkerEventType::ToolUpdate, now@,
                    None, Some(tool_call_id@), opt_chars(title), None, status, None, opt_chars(output))),
                ..old(self)@.journal
            }),
    {
        self.push_event(WorkerEvent {
            id: 0,
            worker_name: worker_name.to_owned(),
            event_type: WorkerEventType::ToolUpdate,
            timestamp: now.to_owned(),
            content: None,
            tool_call_id: Some(tool_call_id.to_owned()),
            tool_title: own_opt(title),
            tool_kind: None,
            tool_status: status,
            tool_input: None,
            tool_output: own_opt(output),
        })
    }

    /// The first `limit` events of `worker_name` after `after_id` (after 0
    /// when none is given), in order of id; a negative limit sets no bound.
    pub fn get_worker_events(&self, worker_name: &str, after_id: Option<i64>, limit: i64) -> (r: Vec<WorkerEvent>)
        ensures
            event_views(r@) == limited(
                self@.journal.events.filter(event_of(worker_name@, match after_id { Some(a) => a, None => 0 })),
                limit,
            ),
    {
        let after: i64 = match after_id {
            Some(a) => a,
            None => 0,
        };
        let ghost pred = event_of(worker_name@, after);
        let ghost all = self@.journal.events;
        let mut out: Vec<WorkerEvent> = Vec::new();
        let mut i: usize = 0;
        proof {
            reveal(Seq::filter);
            assert(all.take(0) =~= Seq::<EventView>::empty());
            assert(all.take(0).filter(pred) =~= Seq::<EventView>::empty());
            assert(event_views(out@) =~= Seq::<EventView>::empty());
        }
        while i < self.journal.events.len()
            invariant
                i <= self.journal.events.len(),
                all == self@.journal.events,
                all.len() == self.journal.events.len(),
                pred == event_of(worker_name@, after),
                event_views(out@) == all.take(i as int).filter(pred),
            decreases self.journal.events.len() - i,
        {
            let e = &self.journal.events[i];
            assert(all[i as int] == e@);
            assert(all.take(i as int + 1) =~= all.take(i as int).push(all[i as int]));
            proof {
                all.take(i as int).lemma_filter_push(all[i as int], pred);
            }
            if str_eq(e.worker_name.as_str(), worker_name) && e.id > after {
                let ghost before = out@;
                out.push(e.clone());
                assert(event_views(out@) =~= event_views(before).push(all[i as int]));
            }
            i = i + 1;
        }
        assert(all.take(all.len() as int) =~= all);
        if limit >= 0 && (limit as u64) < (out.len() as u64) {
            let ghost before = out@;
            out.truncate(limit as usize);
            assert(event_views(out@) =~= event_views(before).take(limit as int));
        }
        out
    }

    /// The first `limit` events of `worker_name`, in order of id.
    pub fn get_all_worker_events(&self, worker_name: &str, limit: i64) -> (r: Vec<WorkerEvent>)
        ensures
            event_views(r@) == limited(self@.journal.events.filter(event_of(worker_name@, 0)), limit),
    {
        self.get_worker_events(worker_name, None, limit)
    }

    /// Drops every event of `worker_name`.
    pub fn clear_worker_events(&mut self, worker_name: &str)
        requires
            old(self).journal_wf(),
        ensures
            final(self).journal_wf(),
            final(self)@ == with_journal(old(self)@, JournalView {
                events: old(self)@.journal.events.filter(event_not_of(worker_name@)),
                ..old(self)@.journal
            }),
    {
        let ghost before = self@;
        let ghost all = before.journal.events;
        let ghost pred = event_not_of(worker_name@);
        let mut kept: Vec<WorkerEvent> = Vec::new();
        let mut i: usize = 0;
        proof {
            reveal(Seq::filter);
            assert(all.take(0) =~= Seq::<EventView>::empty());
            assert(all.take(0).filter(pred) =~= Seq::<EventView>::empty());
            assert(event_views(kept@) =~= Seq::<EventView>::empty());
        }
        while i < self.journal.events.len()
            invariant
                i <= self.journal.events.len(),
                self@ == before,
                all == before.journal.events,
                all.len() == self.journal.events.len(),
                ids_rise(event_ids(all)),
                pred == event_not_of(worker_name@),
                event_views(kept@) == all.take(i as int).filter(pred),
                ids_rise(event_ids(event_views(kept@))),
                forall|a: int| 0 <= a < kept@.len() ==> exists|q: int| 0 <= q < i && (#[trigger] event_views(kept@)[a]) == all[q],
            decreases self.journal.events.len() - i,
        {
            let e = &self.journal.events[i];
            assert(all[i as int] == e@);
            assert(all.take(i as int + 1) =~= all.take(i as int).push(all[i as int]));
            proof {
                all.take(i as int).lemma_filter_push(all[i as int], pred);
            }
            if !str_eq(e.worker_name.as_str(), worker_name) {
                let ghost bk = event_views(kept@);
                kept.push(e.clone());
                proof {
                    let nk = event_views(kept@);
                    assert(nk =~= bk.push(all[i as int]));
                    assert forall|a: int| 0 <= a < kept@.len() implies exists|q: int| 0 <= q < i + 1 && (#[trigger] event_views(kept@)[a]) == all[q] by {
                        if a < bk.len() {
                            assert(nk[a] == bk[a]);
                        } else {
                            assert(nk[a] == all[i as int]);
                        }
                    }
                    assert forall|a: int, b: int| 0 <= a < b < event_ids(nk).len() implies event_ids(nk)[a] < event_ids(nk)[b] by {
                        assert(nk[a] == bk[a]);
                        if b == bk.len() {
                            let q = choose|q: int| 0 <= q < i && bk[a] == all[q];
                            assert(event_ids(all)[q] < event_ids(all)[i as int]);
                        } else {
                            assert(nk[b] == bk[b]);
                            assert(event_ids(bk)[a] < event_ids(bk)[b]);
                        }
                    }
                }
            }
            i = i + 1;
        }
        assert(all.take(all.len() as int) =~= all);
        self.journal.events = kept;
        proof {
            assert(self@ =~= with_journal(before, JournalView { events: all.filter(pred), ..before.journal }));
        }
    }
}

/// The contents of a sequence of history entries.
pub open spec fn history_views(hs: Seq<HistoryEntry>) -> Seq<HistoryView> {
    hs.map_values(|h: HistoryEntry| h@)
}

/// The contents of a sequence of amendments.
pub open spec fn amendment_views(xs: Seq<Amendment>) -> Seq<AmendmentView> {
    xs.map_values(|x: Amendment| x@)
}

impl SQLiteState {
    /// The `limit` newest history entries, newest first; a negative limit
    /// sets no bound.
    pub fn get_history(&self, limit: i64) -> (r: Vec<HistoryEntry>)
        ensures
            history_views(r@) == limited(self@.journal.history.reverse(), limit),
    {
        let ghost hs = self@.journal.history;
        let n = self.journal.history.len();
        let m: usize = if limit >= 0 && (limit as u64) < (n as u64) { limit as usize } else { n };
        let mut out: Vec<HistoryEntry> = Vec::new();
        let mut i: usize = 0;
        assert(history_views(out@) =~= hs.reverse().take(0));
        while i < m
            invariant
                n == self.journal.history.len(),
                hs == self@.journal.history,
                hs.len() == n,
                m <= n,
                i <= m,
                history_views(out@) == hs.reverse().take(i as int),
            decreases m - i,
        {
            let ghost before = out@;
            let c = self.journal.history[n - 1 - i].clone();
            out.push(c);
            proof {
                assert(hs[n - 1 - i] == self.journal.history@[n - 1 - i]@);
                assert(hs.reverse()[i as int] == hs[n - 1 - i]);
                assert(history_views(out@) =~= history_views(before).push(c@));
                assert(history_views(out@) =~= hs.reverse().take(i as int + 1));
            }
            i = i + 1;
        }
        proof {
            if !(limit >= 0 && limit < hs.len()) {
                assert(hs.reverse().take(n as int) =~= hs.reverse());
            }
        }
        out
    }

    /// Records the amendment `message` by `author` at `now`, taking the
    /// request to the version `spec_hash`, and returns its id.
    pub fn add_amendment(&mut self, message: &str, spec_hash: &str, author: &str, now: &str) -> (r: i64)
        requires
            old(self).journal_wf(),
            next_row_id(amendment_ids(old(self)@.journal.amendments)) <= i64::MAX,
        ensures
            final(self).journal_wf(),
            r == next_row_id(amendment_ids(old(self)@.journal.amendments)),
            final(self)@ == with_journal(old(self)@, JournalView {
                amendments: old(self)@.journal.amendments.push(AmendmentView {
                    id: r,
                    message: message@,
                    timestamp: now@,
                    author: author@,
                    spec_hash: spec_hash@,
                }),
                ..old(self)@.journal
            }),
    {
        let ghost before = self@;
        let n = self.journal.amendments.len();
        let id: i64 = if n == 0 {
            1
        } else {
            assert(amendment_ids(before.journal.amendments).last() == self.journal.amendments@[n - 1].id);
            self.journal.amendments[n - 1].id + 1
        };
        self.journal.amendments.push(Amendment {
            id,
            message: message.to_owned(),
            timestamp: now.to_owned(),
            author: author.to_owned(),
            spec_hash: spec_hash.to_owned(),
        });
        proof {
            let xs = self@.journal.amendments;
            let bs = before.journal.amendments;
            assert(xs =~= bs.push(xs.last()));
            assert forall|a: int, b: int| 0 <= a < b < amendment_ids(xs).len() implies amendment_ids(xs)[a] < amendment_ids(xs)[b] by {
                if b == xs.len() - 1 {
                    assert(amendment_ids(bs)[a] <= amendment_ids(bs).last());
                } else {
                    assert(amendment_ids(xs)[a] == amendment_ids(bs)[a]);
                    assert(amendment_ids(xs)[b] == amendment_ids(bs)[b]);
                }
            }
            assert(self@ =~= with_journal(before, JournalView { amendments: xs, ..before.journal }));
        }
        id
    }

    /// Every amendment, in order of id.
    pub fn get_amendments(&self) -> (r: Vec<Amendment>)
        ensures
            amendment_views(r@) == self@.journal.amendments,
    {
        let mut out: Vec<Amendment> = Vec::new();
        let mut i: usize = 0;
        while i < self.journal.amendments.len()
            invariant
                i <= self.journal.amendments.len(),
                amendment_views(out@) == self@.journal.amendments.take(i as int),
            decreases self.journal.amendments.len() - i,
        {
            let ghost before = out@;
            let c = self.journal.amendments[i].clone();
            out.push(c);
            assert(self@.journal.amendments[i as int] == self.journal.amendments@[i as int]@);
            assert(amendment_views(out@) =~= amendment_views(before).push(c@));
            assert(amendment_views(out@) =~= self@.journal.amendments.take(i as int + 1));
            i = i + 1;
        }
        assert(self@.journal.amendments.take(i as int) =~= self@.journal.amendments);
        out
    }

    /// The request version of the latest amendment, if any.
    pub fn get_last_spec_hash(&self) -> (r: Option<String>)
        ensures
            opt_view(r) == if self@.journal.amendments.len() == 0 {
                None
            } else {
                Some(self@.journal.amendments.last().spec_hash)
            },
    {
        let n = self.journal.amendments.len();
        if n == 0 {
            None
        } else {
            Some(self.journal.amendments[n - 1].spec_hash.clone())
        }
    }
}

/// No message of `thread` has an id above the thread's highest.
proof fn lemma_thread_max(ms: Seq<ThreadMessageView>, thread: Seq<char>)
    requires
        ids_rise(message_ids(ms)),
    ensures
        forall|k: int| 0 <= k < ms.len() && (#[trigger] ms[k]).thread == thread ==> ms[k].id <= thread_max_id(ms, thread),
    decreases ms.len(),
{
    if ms.len() > 0 {
        let p = ms.drop_last();
        let x = ms.last();
        let pred = picked(Some(thread), None, None, None);
        assert forall|a: int, b: int| 0 <= a < b < message_ids(p).len() implies message_ids(p)[a] < message_ids(p)[b] by {
            assert(message_ids(p)[a] == message_ids(ms)[a]);
            assert(message_ids(p)[b] == message_ids(ms)[b]);
        }
        lemma_thread_max(p, thread);
        assert(ms =~= p.push(x));
        p.lemma_filter_push(x, pred);
        assert forall|k: int| 0 <= k < ms.len() && (#[trigger] ms[k]).thread == thread implies ms[k].id <= thread_max_id(ms, thread) by {
            if x.thread == thread {
                assert(ms.filter(pred) == p.filter(pred).push(x));
                if k < ms.len() - 1 {
                    assert(message_ids(ms)[k] < message_ids(ms)[ms.len() - 1]);
                }
            } else {
                assert(ms.filter(pred) == p.filter(pred));
                assert(k < ms.len() - 1);
                assert(ms[k] == p[k]);
            }
        }
    }
}

/// A message posted to a thread is the last one a read of the thread
/// returns when the read's limit leaves room for it (or there is none),
/// after the thread's earlier messages, which keep their order.
pub proof fn lemma_posted_message_is_read_last(ms: Seq<ThreadMessageView>, m: ThreadMessageView, limit: i64)
    requires
        limit < 0 || limit > ms.filter(picked(Some(m.thread), None, None, None)).len(),
    ensures
        limited(ms.push(m).filter(picked(Some(m.thread), None, None, None)), limit)
            == ms.filter(picked(Some(m.thread), None, None, None)).push(m),
{
    let p = picked(Some(m.thread), None, None, None);
    ms.lemma_filter_push(m, p);
    assert(p(m));
    assert(ms.push(m).filter(p) == ms.filter(p).push(m));
}

/// Once `reader` has marked `thread` read up to its highest message, none of
/// the thread's messages is unread for it.
pub proof fn lemma_read_thread_has_nothing_unread(j: JournalView, thread: Seq<char>, reader: Seq<char>)
    requires
        journal_wf(j),
    ensures
        unread_in(
            JournalView { reads: marked(j.reads, reader, thread, thread_max_id(j.messages, thread)), ..j },
            thread,
            reader,
        ).len() == 0,
{
    let top = thread_max_id(j.messages, thread);
    let rs = j.reads;
    let nrs = marked(rs, reader, thread, top);
    if exists|k: int| has_mark(rs, reader, thread, k) {
        let k = choose|k: int| has_mark(rs, reader, thread, k);
        assert(has_mark(nrs, reader, thread, k));
        let c = choose|q: int| has_mark(nrs, reader, thread, q);
        assert(has_mark(nrs, reader, thread, c));
        if c != k {
            assert(nrs[c] == rs[c]);
            if c < k {
                assert(!(rs[c].worker_name == rs[k].worker_name && rs[c].thread == rs[k].thread));
            } else {
                assert(!(rs[k].worker_name == rs[c].worker_name && rs[k].thread == rs[c].thread));
            }
        }
        assert(last_read(nrs, reader, thread) == top);
    } else {
        let n = rs.len() as int;
        assert(has_mark(nrs, reader, thread, n));
        let c = choose|q: int| has_mark(nrs, reader, thread, q);
        assert(has_mark(nrs, reader, thread, c));
        if c != n {
            assert(nrs[c] == rs[c]);
            assert(has_mark(rs, reader, thread, c));
        }
        assert(last_read(nrs, reader, thread) == top);
    }
    let nj = JournalView { reads: nrs, ..j };
    let pred = picked(Some(thread), Some(top), None, Some(reader));
    let f = j.messages.filter(pred);
    lemma_thread_max(j.messages, thread);
    if f.len() > 0 {
        broadcast use vstd::seq_lib::group_filter_ensures;
        assert(pred(f[0]));
        assert(f.contains(f[0]));
        j.messages.lemma_filter_contains_rev(pred, f[0]);
        assert(j.messages.contains(f[0]));
        let k = choose|k: int| 0 <= k < j.messages.len() && j.messages[k] == f[0];
        assert(j.messages[k].thread == thread);
    }
    assert(unread_in(nj, thread, reader) == f);
}

} // verus!
