//! Copying a chat's messages to another chat, in batches and with breaks.

use vstd::prelude::*;

use super::list_media::GetHistory;
use super::models::{messages_of, reply_messages, Chat, InputPeer, Message, MessagesReply};
use super::requests::{
    extract_channel_from_chats_pub, first_channel, peer_target, target, CreateChannel,
};
use super::resume::Ascending;
use super::session::{ApiError, Session};
use crate::paths::RelPath;
use crate::sort::{sort_descending, sorted, SortBy};
use crate::text::{
    contains_text, decimal, has_text, joined, lemma_number_behind_a_pattern, number_after,
    number_after_text, occurs_at, signed_decimal, signed_text, upper_text,
};

verus! {

/// How messages are copied.
#[derive(Debug, Clone, Copy)]
pub struct CloneOptions {
    pub delay_ms: u32,
    pub batch_size: u32,
    pub limit: Option<u32>,
    pub drop_author: bool,
    pub drop_captions: bool,
}

impl Default for CloneOptions {
    fn default() -> (r: CloneOptions)
        ensures
            r == (CloneOptions {
                delay_ms: 2000,
                batch_size: 50,
                limit: None,
                drop_author: false,
                drop_captions: false,
            }),
    {
        CloneOptions {
            delay_ms: 2000,
            batch_size: 50,
            limit: None,
            drop_author: false,
            drop_captions: false,
        }
    }
}

/// How far a copy has come.
#[derive(Debug, Clone)]
pub struct CloneSession {
    pub id: String,
    pub source_chat_id: i64,
    pub source_chat_type: String,
    pub source_title: String,
    pub dest_chat_id: i64,
    pub dest_chat_type: String,
    pub dest_title: String,
    pub last_message_id: i32,
    pub total_collected: i32,
    pub cloned_count: i32,
    pub failed_count: i32,
    pub status: String,
    pub options: CloneOptions,
    pub created_at: i64,
    pub updated_at: i64,
    pub error: Option<String>,
}

// ------------------------------------------------------------ files

/// Where the states of copies are kept.
pub fn sessions_dir() -> (r: RelPath)
    ensures
        r@ == seq!["clone_sessions"@],
{
    RelPath::one("clone_sessions")
}

/// The state of one copy.
pub fn session_path(id: &str) -> (r: RelPath)
    ensures
        r@ == seq!["clone_sessions"@, id@ + ".json"@],
{
    let name = joined(id, ".json");
    let r = sessions_dir().join(name.as_str());
    proof {
        assert(r@ =~= seq!["clone_sessions"@, id@ + ".json"@]);
    }
    r
}

/// Copies that were worked on last come first.
pub struct LastWorkedOn;

impl SortBy<CloneSession> for LastWorkedOn {
    open spec fn key(x: &CloneSession) -> int {
        x.updated_at as int
    }

    fn key_of(x: &CloneSession) -> (r: i128) {
        x.updated_at as i128
    }
}

/// The copies, those worked on last first.
pub fn list_sessions(found: Vec<CloneSession>) -> (r: Vec<CloneSession>)
    ensures
        r@ == sorted::<CloneSession, LastWorkedOn>(found@),
{
    sort_descending::<CloneSession, LastWorkedOn>(found)
}

// ------------------------------------------------------------ collecting messages

/// How much of the history is read at a time.
pub const HISTORY_LIMIT: i32 = 100;

/// The numbers of the messages proper, in their order.
pub open spec fn message_ids(messages: Seq<Message>) -> Seq<i32>
    decreases messages.len(),
{
    if messages.len() == 0 {
        Seq::empty()
    } else {
        let before = message_ids(messages.drop_last());
        match messages.last() {
            Message::Message(m) => before.push(m.id),
            _ => before,
        }
    }
}

/// The numbers above a bound.
pub open spec fn above(ids: Seq<i32>, bound: i32) -> Seq<i32> {
    ids.filter(|id: i32| id > bound)
}

/// The smallest number, or the greatest there is without any.
pub open spec fn smallest(ids: Seq<i32>) -> i32
    decreases ids.len(),
{
    if ids.len() == 0 {
        i32::MAX
    } else {
        let before = smallest(ids.drop_last());
        if ids.last() < before {
            ids.last()
        } else {
            before
        }
    }
}

/// Messages that are being collected, from the newest down.
pub struct IdCollection {
    pub peer: InputPeer,
    pub start_after_id: i32,
    pub offset_id: i32,
    pub ids: Vec<i32>,
}

/// Begins to collect the messages of a chat above a number.
pub fn fetch_all_message_ids(
    session: &Session,
    chat_id: i64,
    chat_type: &str,
    start_after_id: i32,
) -> (r: Result<IdCollection, ApiError>)
    ensures
        match r {
            Ok(c) => {
                &&& session.authenticated
                &&& c.peer == target(*session, chat_id, chat_type@)
                &&& c.start_after_id == start_after_id
                &&& c.offset_id == 0
                &&& c.ids@.len() == 0
            },
            Err(e) => !session.authenticated && e == ApiError::NotAuthenticated,
        },
{
    let peer = peer_target(session, chat_id, chat_type)?;
    Ok(IdCollection { peer, start_after_id, offset_id: 0, ids: Vec::new() })
}

impl IdCollection {
    /// The piece of history to ask for.
    pub fn request(&self) -> (r: GetHistory)
        ensures
            r == (GetHistory {
                peer: self.peer,
                offset_id: self.offset_id,
                limit: HISTORY_LIMIT,
            }),
            r.limit == 100,
    {
        GetHistory { peer: self.peer, offset_id: self.offset_id, limit: HISTORY_LIMIT }
    }

    /// Adds a piece of history and says whether to ask for the one below it: not where
    /// there was none, where it held no messages proper, or where it reached down to
    /// the bound.
    pub fn take_page(&mut self, reply: MessagesReply) -> (r: bool)
        ensures
            ({
                let found = message_ids(reply_messages(reply));
                let low = smallest(found);
                &&& final(self).peer == old(self).peer
                &&& final(self).start_after_id == old(self).start_after_id
                &&& final(self).ids@ == old(self).ids@ + above(found, old(self).start_after_id)
                &&& r == (low != i32::MAX && low > old(self).start_after_id)
                &&& final(self).offset_id == (if r {
                    low
                } else {
                    old(self).offset_id
                })
            }),
    {
        let ghost all = reply_messages(reply);
        let ghost bound = self.start_after_id;
        let ghost p = |id: i32| id > bound;
        let messages = messages_of(reply);
        let mut low: i32 = i32::MAX;
        let mut i: usize = 0;
        proof {
            reveal(Seq::filter);
            assert(message_ids(all.take(0)) =~= Seq::<i32>::empty());
            assert(self.ids@ + message_ids(all.take(0)).filter(p) =~= self.ids@);
        }
        while i < messages.len()
            invariant
                i <= messages@.len(),
                messages@ == all,
                self.start_after_id == bound,
                self.peer == old(self).peer,
                self.offset_id == old(self).offset_id,
                p == (|id: i32| id > bound),
                low == smallest(message_ids(all.take(i as int))),
                self.ids@ == old(self).ids@ + message_ids(all.take(i as int)).filter(p),
            decreases messages@.len() - i,
        {
            let ghost before = message_ids(all.take(i as int));
            proof {
                reveal(Seq::filter);
                assert(all.take(i + 1).drop_last() =~= all.take(i as int));
            }
            if let Message::Message(m) = &messages[i] {
                proof {
                    assert(before.push(m.id).drop_last() =~= before);
                }
                if m.id < low {
                    low = m.id;
                }
                if m.id > self.start_after_id {
                    self.ids.push(m.id);
                    proof {
                        assert(self.ids@ =~= old(self).ids@ + before.push(m.id).filter(p));
                    }
                }
            }
            i = i + 1;
        }
        proof {
            assert(all.take(i as int) =~= all);
        }
        if low == i32::MAX || low <= self.start_after_id {
            return false;
        }
        self.offset_id = low;
        true
    }

    /// The messages collected, in ascending order.
    pub fn finish(self) -> (r: Vec<i32>)
        ensures
            r@ == sorted::<i32, Ascending>(self.ids@),
    {
        sort_descending::<i32, Ascending>(self.ids)
    }
}

proof fn lemma_smallest(ids: Seq<i32>)
    ensures
        forall|i: int| 0 <= i < ids.len() ==> smallest(ids) <= #[trigger] ids[i],
    decreases ids.len(),
{
    if ids.len() > 0 {
        let t = ids.drop_last();
        lemma_smallest(t);
        assert forall|i: int| 0 <= i < ids.len() implies smallest(ids) <= #[trigger] ids[i] by {
            if i < t.len() {
                assert(t[i] == ids[i]);
            }
        }
    }
}

/// Collecting goes down the history: where the pieces lie below their offsets, each
/// offset is below the one before.
pub proof fn lemma_collecting_goes_down(found: Seq<i32>, offset: i32)
    requires
        found.len() > 0,
        forall|i: int| 0 <= i < found.len() ==> #[trigger] found[i] < offset,
    ensures
        smallest(found) < offset,
{
    lemma_smallest(found);
    assert(found[0] < offset);
}

/// A message of a chat that is to be copied: a message proper with this number, whatever it
/// carries.
pub open spec fn has_message(messages: Seq<Message>, id: i32) -> bool {
    exists|i: int|
        0 <= i < messages.len() && (#[trigger] messages[i] matches Message::Message(m) && m.id == id)
}

/// The messages of two pieces of history are those of the one and then those of the other,
/// and each message proper counts, whatever it carries; no other does.
pub proof fn lemma_messages_add_up(a: Seq<Message>, b: Seq<Message>, m: Message)
    ensures
        message_ids(a + b) == message_ids(a) + message_ids(b),
        m matches Message::Message(d) ==> message_ids(seq![m]) == seq![d.id],
        !(m is Message) ==> message_ids(seq![m]) == Seq::<i32>::empty(),
    decreases b.len(),
{
    let none = Seq::<Message>::empty();
    assert(seq![m].drop_last() =~= none);
    assert(message_ids(none) =~= Seq::<i32>::empty());
    if m is Message {
        assert(message_ids(seq![m]) =~= seq![m->Message_0.id]);
    }
    if b.len() == 0 {
        assert(a + b =~= a);
        assert(message_ids(a + b) =~= message_ids(a) + message_ids(b));
    } else {
        lemma_messages_add_up(a, b.drop_last(), m);
        assert((a + b).drop_last() =~= a + b.drop_last());
        assert(message_ids(a + b) =~= message_ids(a) + message_ids(b));
    }
}

proof fn lemma_above(ids: Seq<i32>, bound: i32, id: i32)
    ensures
        above(ids, bound).contains(id) <==> ids.contains(id) && id > bound,
    decreases ids.len(),
{
    reveal(Seq::filter);
    if ids.len() > 0 {
        let t = ids.drop_last();
        lemma_above(t, bound, id);
        if t.contains(id) {
            let k = choose|k: int| 0 <= k < t.len() && t[k] == id;
            assert(ids[k] == id);
        }
        if ids.contains(id) && ids.last() != id {
            let k = choose|k: int| 0 <= k < ids.len() && ids[k] == id;
            assert(t[k] == id);
        }
        let kept = above(ids, bound);
        let before = above(t, bound);
        if ids.last() > bound {
            assert(kept == before.push(ids.last()));
            assert(kept[kept.len() - 1] == ids.last());
            if before.contains(id) {
                let k = choose|k: int| 0 <= k < before.len() && before[k] == id;
                assert(kept[k] == id);
            }
            if kept.contains(id) && id != ids.last() {
                let k = choose|k: int| 0 <= k < kept.len() && kept[k] == id;
                assert(before[k] == id);
            }
        } else {
            assert(kept == before);
        }
        assert(ids[ids.len() - 1] == ids.last());
    }
}

proof fn lemma_message_ids(messages: Seq<Message>, id: i32)
    ensures
        message_ids(messages).contains(id) <==> has_message(messages, id),
    decreases messages.len(),
{
    if messages.len() > 0 {
        let front = messages.drop_last();
        let ids = message_ids(messages);
        let before = message_ids(front);
        lemma_message_ids(front, id);
        if has_message(front, id) {
            let i = choose|i: int|
                0 <= i < front.len() && (#[trigger] front[i] matches Message::Message(m) && m.id
                    == id);
            assert(messages[i] == front[i]);
        }
        if has_message(messages, id) {
            let i = choose|i: int|
                0 <= i < messages.len() && (#[trigger] messages[i] matches Message::Message(m)
                    && m.id == id);
            if i < front.len() {
                assert(front[i] == messages[i]);
            } else {
                assert(ids[ids.len() - 1] == id);
            }
        }
        if before.contains(id) {
            let k = choose|k: int| 0 <= k < before.len() && before[k] == id;
            assert(ids[k] == id);
        }
        if ids.contains(id) {
            let k = choose|k: int| 0 <= k < ids.len() && ids[k] == id;
            if k < before.len() {
                assert(before[k] == id);
            } else {
                assert(messages[messages.len() - 1] == messages.last());
            }
        }
    }
}

/// A piece of history adds every message proper above the bound, whatever it carries, and
/// nothing else.
pub proof fn lemma_every_message_is_collected(messages: Seq<Message>, bound: i32, id: i32)
    ensures
        above(message_ids(messages), bound).contains(id) <==> id > bound && has_message(
            messages,
            id,
        ),
{
    lemma_message_ids(messages, id);
    lemma_above(message_ids(messages), bound, id);
}

/// The next piece of history begins at the lowest message proper of the last one.
pub proof fn lemma_lowest_message(messages: Seq<Message>)
    ensures
        ({
            let low = smallest(message_ids(messages));
            &&& forall|i: int|
                0 <= i < messages.len() ==> (#[trigger] messages[i] matches Message::Message(m)
                    ==> low <= m.id)
            &&& low == i32::MAX || has_message(messages, low)
        }),
{
    let ids = message_ids(messages);
    let low = smallest(ids);
    lemma_smallest(ids);
    assert forall|i: int| 0 <= i < messages.len() implies (
    #[trigger] messages[i] matches Message::Message(m) ==> low <= m.id) by {
        if messages[i] is Message {
            let id = messages[i]->Message_0.id;
            lemma_message_ids(messages, id);
            assert(has_message(messages, id));
            let k = choose|k: int| 0 <= k < ids.len() && ids[k] == id;
            assert(low <= ids[k]);
        }
    }
    if low != i32::MAX {
        lemma_smallest_is_one(ids);
        lemma_message_ids(messages, low);
    }
}

proof fn lemma_smallest_is_one(ids: Seq<i32>)
    requires
        smallest(ids) != i32::MAX,
    ensures
        ids.contains(smallest(ids)),
    decreases ids.len(),
{
    if ids.len() > 0 {
        let t = ids.drop_last();
        if smallest(ids) == ids.last() {
            assert(ids[ids.len() - 1] == smallest(ids));
        } else {
            lemma_smallest_is_one(t);
            let k = choose|k: int| 0 <= k < t.len() && t[k] == smallest(t);
            assert(ids[k] == t[k]);
        }
    }
}

/// The messages that are collected are copied from the lowest number up, each as often as
/// it was collected.
pub proof fn lemma_collected_in_order(ids: Seq<i32>)
    ensures
        sorted::<i32, Ascending>(ids).to_multiset() == ids.to_multiset(),
        forall|i: int, j: int|
            0 <= i < j < ids.len() ==> #[trigger] sorted::<i32, Ascending>(ids)[i] <= #[trigger] sorted::<
                i32,
                Ascending,
            >(ids)[j],
        sorted::<i32, Ascending>(ids).len() == ids.len(),
{
    crate::sort::lemma_sorted_is_stable_sort::<i32, Ascending>(ids);
    let r = sorted::<i32, Ascending>(ids);
    assert forall|i: int, j: int| 0 <= i < j < ids.len() implies #[trigger] r[i] <= #[trigger] r[j] by {
        assert(Ascending::key(&r[i]) >= Ascending::key(&r[j]));
    }
}

// ------------------------------------------------------------ a copy begins

/// The state of a copy that begins, or goes on, at the moment `now`.
pub open spec fn is_begun(
    stored: Option<CloneSession>,
    fresh: CloneSession,
    now: i64,
    r: CloneSession,
) -> bool {
    let base = match stored {
        Some(s) => s,
        None => fresh,
    };
    &&& r.status@ == "running"@
    &&& r == (CloneSession { status: r.status, error: None, updated_at: now, ..base })
}

/// Which chats a copy is between.
pub struct ClonePair {
    pub source_chat_id: i64,
    pub source_chat_type: String,
    pub source_title: String,
    pub dest_chat_id: i64,
    pub dest_chat_type: String,
    pub dest_title: String,
}

/// Where a copy goes.
pub enum Destination {
    Existing { chat_id: i64, chat_type: String, title: String },
    /// A channel that is to be created under this title.
    New { title: String },
}

/// Decides where a copy goes, and what is not said of it.
pub fn destination(
    source_title: &str,
    chat_id: Option<i64>,
    chat_type: Option<String>,
    title: Option<String>,
) -> (r: Destination)
    ensures
        match chat_id {
            Some(id) => {
                &&& r matches Destination::Existing { chat_id: to, chat_type: kind, title: name }
                &&& to == id
                &&& kind@ == (match chat_type {
                    Some(t) => t@,
                    None => "channel"@,
                })
                &&& name@ == (match title {
                    Some(t) => t@,
                    None => "Canal "@ + signed_decimal(id as int),
                })
            },
            None => r matches Destination::New { title: name } && name@ == (match title {
                Some(t) => t@,
                None => source_title@ + " - clone"@,
            }),
        },
{
    match chat_id {
        Some(id) => {
            let kind = match chat_type {
                Some(t) => t,
                None => "channel".to_owned(),
            };
            let name = match title {
                Some(t) => t,
                None => joined("Canal ", signed_text(id).as_str()),
            };
            Destination::Existing { chat_id: id, chat_type: kind, title: name }
        },
        None => Destination::New {
            title: match title {
                Some(t) => t,
                None => joined(source_title, " - clone"),
            },
        },
    }
}

/// Marks a copy as cancelled.
pub fn cancel_clone(session: &mut CloneSession)
    ensures
        final(session).status@ == "cancelled"@,
        *final(session) == (CloneSession { status: final(session).status, ..*old(session) }),
{
    session.status = "cancelled".to_owned();
}

/// The name of a copy: the one that is resumed, or a new one.
pub fn clone_id(resume: &Option<String>, now: i64) -> (r: String)
    ensures
        r@ == (match *resume {
            Some(id) => id@,
            None => "clone-"@ + signed_decimal(now as int),
        }),
{
    match resume {
        Some(id) => id.clone(),
        None => {
            let moment = signed_text(now);
            joined("clone-", moment.as_str())
        },
    }
}

/// Begins a copy, or goes on with the one whose state was stored.
pub fn start_clone(
    id: String,
    stored: Option<CloneSession>,
    pair: ClonePair,
    options: CloneOptions,
    now: i64,
) -> (r: CloneSession)
    ensures
        exists|fresh: CloneSession| #[trigger]
            is_begun(stored, fresh, now, r) && fresh == (CloneSession {
                id,
                source_chat_id: pair.source_chat_id,
                source_chat_type: pair.source_chat_type,
                source_title: pair.source_title,
                dest_chat_id: pair.dest_chat_id,
                dest_chat_type: pair.dest_chat_type,
                dest_title: pair.dest_title,
                last_message_id: 0,
                total_collected: 0,
                cloned_count: 0,
                failed_count: 0,
                status: fresh.status,
                options,
                created_at: now,
                updated_at: now,
                error: None,
            }),
{
    let fresh = CloneSession {
        id,
        source_chat_id: pair.source_chat_id,
        source_chat_type: pair.source_chat_type,
        source_title: pair.source_title,
        dest_chat_id: pair.dest_chat_id,
        dest_chat_type: pair.dest_chat_type,
        dest_title: pair.dest_title,
        last_message_id: 0,
        total_collected: 0,
        cloned_count: 0,
        failed_count: 0,
        status: "running".to_owned(),
        options,
        created_at: now,
        updated_at: now,
        error: None,
    };
    let ghost base = fresh;
    let mut session = match stored {
        Some(s) => s,
        None => fresh,
    };
    session.status = "running".to_owned();
    session.error = None;
    session.updated_at = now;
    proof {
        assert(is_begun(stored, base, now, session));
    }
    session
}

/// How a copy ended.
#[derive(Debug, Clone, Copy, PartialEq, Eq, Structural)]
pub enum CloneEnd {
    Completed,
    Paused,
    Error,
}

/// What a copy is called that ended so.
pub open spec fn end_status(end: CloneEnd) -> Seq<char> {
    match end {
        CloneEnd::Completed => "completed"@,
        CloneEnd::Paused => "paused"@,
        CloneEnd::Error => "error"@,
    }
}

/// How a copy with this outcome ended: one that was cancelled can be resumed.
pub open spec fn end_of(result: Result<(), String>) -> CloneEnd {
    match result {
        Ok(_) => CloneEnd::Completed,
        Err(msg) => if has_text(msg@, "cancelled"@) {
            CloneEnd::Paused
        } else {
            CloneEnd::Error
        },
    }
}

/// Records how a copy ended.
pub fn finish_clone(session: &mut CloneSession, result: &Result<(), String>, now: i64) -> (r: CloneEnd)
    ensures
        r == end_of(*result),
        final(session).status@ == end_status(r),
        *final(session) == (CloneSession {
            status: final(session).status,
            updated_at: now,
            error: match (r, *result) {
                (CloneEnd::Error, Err(msg)) => Some(msg),
                _ => old(session).error,
            },
            ..*old(session)
        }),
{
    session.updated_at = now;
    match result {
        Ok(_) => {
            session.status = "completed".to_owned();
            CloneEnd::Completed
        },
        Err(msg) => if contains_text(msg.as_str(), "cancelled") {
            session.status = "paused".to_owned();
            CloneEnd::Paused
        } else {
            session.status = "error".to_owned();
            session.error = Some(msg.clone());
            CloneEnd::Error
        },
    }
}

// ------------------------------------------------------------ the copy itself

/// How many messages go into a batch: from 1 to 100.
pub open spec fn batch_of(options: CloneOptions) -> int {
    if options.batch_size < 1 {
        1
    } else if options.batch_size > 100 {
        100
    } else {
        options.batch_size as int
    }
}

/// A copy at work: the messages to copy, in ascending order, and how far it is in them.
pub struct CloneRun {
    pub session: CloneSession,
    pub pending: Vec<i32>,
    pub at: usize,
    pub taken: u32,
}

impl CloneRun {
    /// The counts fit, whatever comes.
    pub open spec fn well_formed(self) -> bool {
        &&& self.pending@.len() <= i32::MAX
        &&& self.at <= self.pending@.len()
        &&& self.taken <= self.at
        &&& self.session.cloned_count + (self.pending@.len() - self.at) <= i32::MAX
        &&& self.session.failed_count + (self.pending@.len() - self.at) <= i32::MAX
    }

    pub open spec fn batch(self) -> int {
        batch_of(self.session.options)
    }

    /// The end of the batch at hand.
    pub open spec fn batch_end(self) -> int {
        if self.at + self.batch() < self.pending@.len() {
            self.at + self.batch()
        } else {
            self.pending@.len() as int
        }
    }

    /// The messages of the batch at hand that the limit allows.
    pub open spec fn next_batch(self) -> Seq<i32> {
        let whole = self.pending@.subrange(self.at as int, self.batch_end());
        match self.session.options.limit {
            None => whole,
            Some(limit) => {
                let left = if limit > self.taken {
                    limit - self.taken
                } else {
                    0
                };
                if whole.len() <= left {
                    whole
                } else {
                    whole.take(left)
                }
            },
        }
    }
}

/// Begins to copy the messages that were collected.
pub fn begin_run(session: CloneSession, pending: Vec<i32>, now: i64) -> (r: CloneRun)
    requires
        pending@.len() <= i32::MAX,
        session.cloned_count + pending@.len() <= i32::MAX,
        session.failed_count + pending@.len() <= i32::MAX,
    ensures
        r.well_formed(),
        r.pending == pending,
        r.at == 0,
        r.taken == 0,
        r.session == (CloneSession {
            total_collected: (session.cloned_count + pending@.len()) as i32,
            updated_at: now,
            ..session
        }),
{
    let mut started = session;
    started.total_collected = started.cloned_count + pending.len() as i32;
    started.updated_at = now;
    CloneRun { session: started, pending, at: 0, taken: 0 }
}

/// What came of forwarding a batch, and what follows.
pub enum CloneStep {
    /// Store the state, then go on after the delay.
    Stored,
    /// Wait this many seconds and one more, then go on with the next batch.
    Wait { secs: u64 },
    /// The copy fails.
    Fail(String),
}

/// What a copy does next.
pub enum CloneNext {
    /// Forward these messages.
    Forward(Vec<i32>),
    /// All were copied, or the limit is reached.
    Done,
    /// The copy was cancelled while messages were pending.
    Cancelled,
}

/// How long to wait where the service does not say for how long.
pub const DEFAULT_WAIT_SECS: u64 = 15;

/// A refusal to be asked again so soon, told by the upper-case form of the failure.
pub open spec fn asks_to_wait(upper: Seq<char>) -> bool {
    has_text(upper, "FLOOD_WAIT"@)
}

/// The seconds that such a refusal asks to wait.
pub open spec fn wait_secs(upper: Seq<char>) -> nat {
    match number_after_text(upper, "FLOOD_WAIT_"@, u64::MAX as nat) {
        Some(secs) => secs,
        None => DEFAULT_WAIT_SECS as nat,
    }
}

/// A failure that says that the messages may not be forwarded.
pub open spec fn forwards_forbidden(upper: Seq<char>) -> bool {
    has_text(upper, "CHAT_FORWARDS_RESTRICTED"@) || has_text(upper, "CHAT_FORWARD_RESTRICTED"@)
}

/// What is reported then.
pub open spec fn forwards_forbidden_text() -> Seq<char> {
    "Conteúdo protegido contra encaminhamento. Use modo reupload (não suportado nesta versão)."@
}

impl CloneRun {
    /// The messages to forward next; none where all were copied or the limit is reached.
    pub fn run_clone(&self) -> (r: Option<Vec<i32>>)
        requires
            self.well_formed(),
        ensures
            match r {
                Some(v) => v@ == self.next_batch() && v@.len() > 0,
                None => self.next_batch().len() == 0,
            },
    {
        let size: u32 = self.session.options.batch_size;
        let batch: usize = if size < 1 {
            1
        } else if size > 100 {
            100
        } else {
            size as usize
        };
        let total = self.pending.len();
        let end: usize = if batch < total - self.at {
            self.at + batch
        } else {
            total
        };
        let count: usize = end - self.at;
        let kept: usize = match self.session.options.limit {
            None => count,
            Some(limit) => {
                let left: u32 = if limit > self.taken {
                    limit - self.taken
                } else {
                    0
                };
                if count <= left as usize {
                    count
                } else {
                    left as usize
                }
            },
        };
        let mut out: Vec<i32> = Vec::new();
        let mut i: usize = 0;
        while i < kept
            invariant
                i <= kept <= count,
                self.at + count <= total,
                total == self.pending@.len(),
                out@ =~= self.pending@.subrange(self.at as int, self.at + i),
            decreases kept - i,
        {
            out.push(self.pending[self.at + i]);
            i = i + 1;
        }
        proof {
            let whole = self.pending@.subrange(self.at as int, self.batch_end());
            assert(out@ =~= whole.take(kept as int));
            assert(whole.take(whole.len() as int) =~= whole);
        }
        if out.len() == 0 {
            None
        } else {
            Some(out)
        }
    }

    /// What comes next, given whether the copy was cancelled. As long as messages are
    /// pending, that counts before the limit.
    pub fn go_on(&self, cancelled: bool) -> (r: CloneNext)
        requires
            self.well_formed(),
        ensures
            match r {
                CloneNext::Forward(v) => v@ == self.next_batch() && v@.len() > 0,
                CloneNext::Done => self.next_batch().len() == 0,
                CloneNext::Cancelled => true,
            },
            r is Cancelled <==> cancelled && self.at < self.pending@.len(),
    {
        if cancelled && self.at < self.pending.len() {
            return CloneNext::Cancelled;
        }
        match self.run_clone() {
            Some(batch) => CloneNext::Forward(batch),
            None => CloneNext::Done,
        }
    }

    /// Counts a batch that was forwarded.
    pub fn forwarded(&mut self, now: i64)
        requires
            old(self).well_formed(),
            old(self).next_batch().len() > 0,
        ensures
            final(self).well_formed(),
            final(self).pending == old(self).pending,
            final(self).at == old(self).batch_end(),
            final(self).taken == old(self).taken + old(self).next_batch().len(),
            final(self).session == (CloneSession {
                cloned_count: (old(self).session.cloned_count + old(self).next_batch().len()) as i32,
                last_message_id: old(self).next_batch().last(),
                updated_at: now,
                ..old(self).session
            }),
    {
        let chunk = self.run_clone();
        if let Some(ids) = chunk {
            let count = ids.len();
            self.session.cloned_count = self.session.cloned_count + count as i32;
            self.session.last_message_id = ids[count - 1];
            self.session.updated_at = now;
            self.taken = self.taken + count as u32;
            self.skip_batch();
        }
    }

    /// Leaves the batch at hand behind.
    fn skip_batch(&mut self)
        requires
            old(self).at <= old(self).pending@.len(),
        ensures
            final(self).at == old(self).batch_end(),
            final(self).pending == old(self).pending,
            final(self).taken == old(self).taken,
            final(self).session == old(self).session,
    {
        let size: u32 = self.session.options.batch_size;
        let batch: usize = if size < 1 {
            1
        } else if size > 100 {
            100
        } else {
            size as usize
        };
        let total = self.pending.len();
        self.at = if batch < total - self.at {
            self.at + batch
        } else {
            total
        };
    }

    /// Decides on a batch that could not be forwarded, given the upper-case form of the
    /// failure. A batch that has to wait is left out.
    pub fn forward_failed_given(&mut self, msg: String, upper: &str, now: i64) -> (r: CloneStep)
        requires
            old(self).well_formed(),
        ensures
            final(self).well_formed(),
            final(self).pending == old(self).pending,
            final(self).taken == old(self).taken,
            if asks_to_wait(upper@) {
                &&& r matches CloneStep::Wait { secs } && secs == wait_secs(upper@)
                &&& final(self).at == old(self).batch_end()
                &&& final(self).session == old(self).session
            } else if forwards_forbidden(upper@) {
                &&& r matches CloneStep::Fail(e) && e@ == forwards_forbidden_text()
                &&& *final(self) == *old(self)
            } else {
                &&& r is Stored
                &&& final(self).at == old(self).batch_end()
                &&& final(self).session == (CloneSession {
                    failed_count: (old(self).session.failed_count
                        + old(self).next_batch().len()) as i32,
                    error: Some(msg),
                    updated_at: now,
                    ..old(self).session
                })
            },
    {
        if contains_text(upper, "FLOOD_WAIT") {
            let secs: u64 = match number_after(upper, "FLOOD_WAIT_", u64::MAX) {
                Some(s) => s,
                None => DEFAULT_WAIT_SECS,
            };
            self.skip_batch();
            return CloneStep::Wait { secs };
        }
        if contains_text(upper, "CHAT_FORWARDS_RESTRICTED") || contains_text(
            upper,
            "CHAT_FORWARD_RESTRICTED",
        ) {
            return CloneStep::Fail(
                "Conteúdo protegido contra encaminhamento. Use modo reupload (não suportado nesta versão).".to_owned(),
            );
        }
        let count: usize = match self.run_clone() {
            Some(ids) => ids.len(),
            None => 0,
        };
        self.session.failed_count = self.session.failed_count + count as i32;
        self.session.error = Some(msg);
        self.session.updated_at = now;
        self.skip_batch();
        CloneStep::Stored
    }

    /// Decides on a batch that could not be forwarded.
    pub fn forward_failed(&mut self, msg: String, now: i64) -> (r: CloneStep)
        requires
            old(self).well_formed(),
        ensures
            final(self).well_formed(),
            final(self).pending == old(self).pending,
            final(self).taken == old(self).taken,
            ({
                let upper = upper_text(msg@);
                if asks_to_wait(upper) {
                    &&& r matches CloneStep::Wait { secs } && secs == wait_secs(upper)
                    &&& final(self).at == old(self).batch_end()
                    &&& final(self).session == old(self).session
                } else if forwards_forbidden(upper) {
                    &&& r matches CloneStep::Fail(e) && e@ == forwards_forbidden_text()
                    &&& *final(self) == *old(self)
                } else {
                    &&& r is Stored
                    &&& final(self).at == old(self).batch_end()
                    &&& final(self).session == (CloneSession {
                        failed_count: (old(self).session.failed_count
                            + old(self).next_batch().len()) as i32,
                        error: Some(msg),
                        updated_at: now,
                        ..old(self).session
                    })
                }
            }),
    {
        let upper = msg.as_str().to_uppercase();
        self.forward_failed_given(msg, upper.as_str(), now)
    }
}

/// A copy ends: each batch leaves fewer messages, and there is a batch only while
/// messages are left.
pub proof fn lemma_copy_ends(run: CloneRun)
    requires
        run.well_formed(),
    ensures
        run.at < run.pending@.len() ==> run.at < run.batch_end() <= run.pending@.len(),
        run.at == run.pending@.len() ==> run.next_batch().len() == 0,
{
}

/// No batch is larger than one hundred messages, and all batches together never
/// exceed the limit.
pub proof fn lemma_batches_respect_the_limit(run: CloneRun)
    requires
        run.well_formed(),
        run.session.options.limit matches Some(limit) ==> run.taken <= limit,
    ensures
        run.next_batch().len() <= 100,
        run.session.options.limit matches Some(limit) ==> run.taken + run.next_batch().len()
            <= limit,
{
}

/// A batch holds the messages that come next, in their order and without a gap: as many as
/// a batch may hold, unless fewer are left or the limit allows fewer. Where no limit is set
/// the next batch begins right behind it.
pub proof fn lemma_batch_is_what_comes_next(run: CloneRun)
    requires
        run.well_formed(),
    ensures
        ({
            let batch = run.next_batch();
            let rest = run.pending@.len() - run.at;
            let size = run.session.options.batch_size;
            &&& batch.len() <= rest
            &&& forall|i: int|
                0 <= i < batch.len() ==> #[trigger] batch[i] == run.pending@[run.at + i]
            &&& batch.len() <= size || batch.len() <= 1
            &&& batch.len() <= run.batch_end() - run.at <= rest
            &&& run.batch_end() - run.at <= 100
            &&& run.batch_end() - run.at <= size || run.batch_end() - run.at <= 1
            &&& run.batch_end() < run.pending@.len() && run.batch_end() - run.at < 100
                ==> run.batch_end() - run.at >= size
            &&& run.at < run.pending@.len() ==> run.at < run.batch_end()
            &&& match run.session.options.limit {
                None => {
                    &&& batch.len() == rest || batch.len() == 100 || batch.len() == size
                        || size == 0 && batch.len() == 1
                    &&& batch.len() < rest && batch.len() < 100 ==> batch.len() >= size
                    &&& run.batch_end() == run.at + batch.len()
                },
                Some(limit) => {
                    &&& run.taken <= limit ==> batch.len() <= limit - run.taken
                    &&& run.taken >= limit ==> batch.len() == 0
                    &&& batch.len() < rest && batch.len() < 100 && batch.len() < size ==> run.taken
                        + batch.len() >= limit
                },
            }
        }),
{
}

/// A copy that was stored goes on where it stopped: with its chats, its options and its
/// counts. A new one begins with none of its messages copied.
pub proof fn lemma_copy_goes_on(
    stored: Option<CloneSession>,
    fresh: CloneSession,
    now: i64,
    r: CloneSession,
)
    requires
        is_begun(stored, fresh, now, r),
    ensures
        ({
            let from = match stored {
                Some(s) => s,
                None => fresh,
            };
            &&& r.id == from.id
            &&& r.source_chat_id == from.source_chat_id
            &&& r.source_chat_type == from.source_chat_type
            &&& r.dest_chat_id == from.dest_chat_id
            &&& r.dest_chat_type == from.dest_chat_type
            &&& r.last_message_id == from.last_message_id
            &&& r.cloned_count == from.cloned_count
            &&& r.failed_count == from.failed_count
            &&& r.options == from.options
            &&& r.created_at == from.created_at
            &&& r.error is None
            &&& r.updated_at == now
            &&& r.status@ == "running"@
        }),
{
}

/// A copy is complete only where nothing failed, and one that was cancelled can go on.
pub proof fn lemma_how_a_copy_ends(result: Result<(), String>)
    ensures
        end_of(result) is Completed <==> result is Ok,
        end_of(result) is Paused <==> (result matches Err(e) && has_text(e@, "cancelled"@)),
        end_status(CloneEnd::Completed) == "completed"@,
        end_status(CloneEnd::Paused) == "paused"@,
        end_status(CloneEnd::Error) == "error"@,
{
}

/// A refusal that names the seconds to wait is waited out for as long.
pub proof fn lemma_named_wait_is_kept(before: Seq<char>, secs: nat, rest: Seq<char>)
    requires
        secs <= u64::MAX,
        rest.len() == 0 || !('0' <= rest[0] <= '9'),
        forall|i: int|
            0 <= i < before.len() ==> !#[trigger] occurs_at(
                before + "FLOOD_WAIT_"@ + decimal(secs) + rest,
                "FLOOD_WAIT_"@,
                i,
            ),
    ensures
        asks_to_wait(before + "FLOOD_WAIT_"@ + decimal(secs) + rest),
        wait_secs(before + "FLOOD_WAIT_"@ + decimal(secs) + rest) == secs,
{
    let s = before + "FLOOD_WAIT_"@ + decimal(secs) + rest;
    reveal_strlit("FLOOD_WAIT");
    reveal_strlit("FLOOD_WAIT_");
    assert(s.subrange(before.len() as int, before.len() + 10int) =~= "FLOOD_WAIT"@);
    assert(occurs_at(s, "FLOOD_WAIT"@, before.len() as int));
    lemma_number_behind_a_pattern(before, "FLOOD_WAIT_"@, secs, rest, u64::MAX as nat);
}

// ------------------------------------------------------------ a new destination

/// The channel that a chat is copied to.
pub fn create_destination_channel(session: &Session, title: &str) -> (r: Result<
    CreateChannel,
    ApiError,
>)
    ensures
        match r {
            Ok(c) => {
                &&& session.authenticated
                &&& c.broadcast
                &&& !c.megagroup
                &&& c.title@ == title@
                &&& c.about@ == "Cloned by OmniGet"@
            },
            Err(e) => !session.authenticated && e == ApiError::NotAuthenticated,
        },
{
    if !session.authenticated {
        return Err(ApiError::NotAuthenticated);
    }
    Ok(
        CreateChannel {
            broadcast: true,
            megagroup: false,
            title: title.to_owned(),
            about: "Cloned by OmniGet".to_owned(),
        },
    )
}

/// Remembers the channel that was created. Without one in the reply it reports so.
pub fn destination_created(session: &mut Session, chats: &Vec<Chat>) -> (r: Result<
    (i64, i64),
    String,
>)
    ensures
        match first_channel(chats@) {
            Some((id, hash)) => {
                &&& r == Ok::<_, String>((id, hash))
                &&& final(session).peer_hashes@ == old(session).peer_hashes@.insert(id, hash)
            },
            None => {
                &&& r matches Err(e) && e@ == "could not find created channel id"@
                &&& final(session).peer_hashes@ == old(session).peer_hashes@
            },
        },
        final(session).authenticated == old(session).authenticated,
        final(session).peer_photo_ids == old(session).peer_photo_ids,
        final(session).takeout_session_id == old(session).takeout_session_id,
{
    match extract_channel_from_chats_pub(chats) {
        Some((id, hash)) => {
            let _ = session.peer_hashes.put(id, hash);
            Ok((id, hash))
        },
        None => Err("could not find created channel id".to_owned()),
    }
}

/// A refusal that names no seconds is waited out for a quarter of a minute.
pub proof fn lemma_unnamed_wait(upper: Seq<char>)
    ensures
        !has_text(upper, "FLOOD_WAIT_"@) ==> wait_secs(upper) == 15,
        asks_to_wait(upper) <==> has_text(upper, "FLOOD_WAIT"@),
        forwards_forbidden(upper) <==> has_text(upper, "CHAT_FORWARDS_RESTRICTED"@) || has_text(
            upper,
            "CHAT_FORWARD_RESTRICTED"@,
        ),
{
}

/// Copies are listed with those worked on last first, and all of them.
pub proof fn lemma_copies_are_listed(found: Seq<CloneSession>)
    ensures
        sorted::<CloneSession, LastWorkedOn>(found).to_multiset() == found.to_multiset(),
        forall|i: int, j: int|
            0 <= i < j < found.len() ==> (#[trigger] sorted::<CloneSession, LastWorkedOn>(
                found,
            )[i]).updated_at >= (#[trigger] sorted::<CloneSession, LastWorkedOn>(
                found,
            )[j]).updated_at,
{
    crate::sort::lemma_sorted_order::<CloneSession, LastWorkedOn>(found);
    let r = sorted::<CloneSession, LastWorkedOn>(found);
    assert forall|i: int, j: int| 0 <= i < j < found.len() implies (#[trigger] r[i]).updated_at >= (
    #[trigger] r[j]).updated_at by {
        assert(LastWorkedOn::key(&r[i]) >= LastWorkedOn::key(&r[j]));
    }
}

} // verus!
