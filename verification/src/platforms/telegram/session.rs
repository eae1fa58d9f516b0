//! What the plugin remembers about the account it is signed in to.

use std::collections::HashMap;

use vstd::prelude::*;

use crate::text::joined3;

verus! {

/// One number for each peer.
#[verifier::ext_equal]
pub struct PeerTable {
    map: HashMap<i64, i64>,
}

impl View for PeerTable {
    type V = Map<i64, i64>;

    closed spec fn view(&self) -> Map<i64, i64> {
        self.map@
    }
}

/// The entry of a peer, or 0 where there is none.
pub open spec fn entry_or_zero(table: Map<i64, i64>, id: i64) -> i64 {
    if table.contains_key(id) {
        table[id]
    } else {
        0
    }
}

impl PeerTable {
    pub fn new() -> (r: PeerTable)
        ensures
            r@ == Map::<i64, i64>::empty(),
    {
        broadcast use vstd::std_specs::hash::group_hash_axioms;

        PeerTable { map: HashMap::new() }
    }

    /// The entry of a peer.
    pub fn get(&self, id: i64) -> (r: Option<i64>)
        ensures
            r == (if self@.contains_key(id) {
                Some(self@[id])
            } else {
                None
            }),
    {
        broadcast use vstd::std_specs::hash::group_hash_axioms;

        match self.map.get(&id) {
            Some(v) => Some(*v),
            None => None,
        }
    }

    /// The entry of a peer, or 0.
    pub fn get_or_zero(&self, id: i64) -> (r: i64)
        ensures
            r == entry_or_zero(self@, id),
    {
        match self.get(id) {
            Some(v) => v,
            None => 0,
        }
    }

    /// Sets the entry of a peer and returns the one it had.
    pub fn put(&mut self, id: i64, value: i64) -> (r: Option<i64>)
        ensures
            final(self)@ == old(self)@.insert(id, value),
            r == (if old(self)@.contains_key(id) {
                Some(old(self)@[id])
            } else {
                None
            }),
    {
        broadcast use vstd::std_specs::hash::group_hash_axioms;

        self.map.insert(id, value)
    }

    /// Forgets a peer.
    pub fn forget(&mut self, id: i64)
        ensures
            final(self)@ == old(self)@.remove(id),
    {
        broadcast use vstd::std_specs::hash::group_hash_axioms;

        let _ = self.map.remove(&id);
        proof {
            assert(self@ =~= old(self)@.remove(id));
        }
    }
}

/// The pairs of a list written into a table, in their order.
pub open spec fn with_pairs(table: Map<i64, i64>, pairs: Seq<(i64, i64)>) -> Map<i64, i64>
    decreases pairs.len(),
{
    if pairs.len() == 0 {
        table
    } else {
        with_pairs(table, pairs.drop_last()).insert(pairs.last().0, pairs.last().1)
    }
}

/// Writes pairs into a table; of two for one peer the later one stays.
pub fn put_all(table: &mut PeerTable, pairs: &Vec<(i64, i64)>)
    ensures
        final(table)@ == with_pairs(old(table)@, pairs@),
{
    let mut i: usize = 0;
    while i < pairs.len()
        invariant
            i <= pairs@.len(),
            table@ == with_pairs(old(table)@, pairs@.take(i as int)),
        decreases pairs@.len() - i,
    {
        proof {
            assert(pairs@.take(i + 1).drop_last() =~= pairs@.take(i as int));
        }
        let (id, value) = pairs[i];
        let _ = table.put(id, value);
        i = i + 1;
    }
    proof {
        assert(pairs@.take(i as int) =~= pairs@);
    }
}

/// What is known of the account in use.
pub struct Session {
    /// Whether a client is connected.
    pub authenticated: bool,
    /// The access hash of each peer that was seen.
    pub peer_hashes: PeerTable,
    /// The photo of each peer that has one.
    pub peer_photo_ids: PeerTable,
    /// The export session that is open.
    pub takeout_session_id: Option<i64>,
}

impl Session {
    pub fn new() -> (r: Session)
        ensures
            !r.authenticated,
            r.peer_hashes@ == Map::<i64, i64>::empty(),
            r.peer_photo_ids@ == Map::<i64, i64>::empty(),
            r.takeout_session_id is None,
    {
        Session {
            authenticated: false,
            peer_hashes: PeerTable::new(),
            peer_photo_ids: PeerTable::new(),
            takeout_session_id: None,
        }
    }

    /// The access hash that requests about a peer carry.
    pub open spec fn hash(self, id: i64) -> i64 {
        entry_or_zero(self.peer_hashes@, id)
    }
}

/// Why a request is not made, or what its reply lacks.
pub enum ApiError {
    NotAuthenticated,
    CannotLeave { chat_type: String },
    NoFullInfo { chat_type: String },
    NoChannelInReply,
    UnsupportedMedia,
}

/// What the user reads of an error.
pub open spec fn api_error_text(e: ApiError) -> Seq<char> {
    match e {
        ApiError::NotAuthenticated => "Not authenticated"@,
        ApiError::CannotLeave { chat_type } => "leave_channel: chat_type '"@ + chat_type@
            + "' not supported (use channel or group)"@,
        ApiError::NoFullInfo { chat_type } =>
            "full_channel_info: only channel/group supported, got '"@ + chat_type@ + "'"@,
        ApiError::NoChannelInReply => "could not find channel id in response"@,
        ApiError::UnsupportedMedia => "Unsupported media type"@,
    }
}

impl ApiError {
    pub fn message(&self) -> (r: String)
        ensures
            r@ == api_error_text(*self),
    {
        match self {
            ApiError::NotAuthenticated => "Not authenticated".to_owned(),
            ApiError::CannotLeave { chat_type } => joined3(
                "leave_channel: chat_type '",
                chat_type.as_str(),
                "' not supported (use channel or group)",
            ),
            ApiError::NoFullInfo { chat_type } => joined3(
                "full_channel_info: only channel/group supported, got '",
                chat_type.as_str(),
                "'",
            ),
            ApiError::NoChannelInReply => "could not find channel id in response".to_owned(),
            ApiError::UnsupportedMedia => "Unsupported media type".to_owned(),
        }
    }
}

/// Of several entries for one id the last one counts, and ids without an entry keep what
/// they had.
pub proof fn lemma_last_entry_counts(table: Map<i64, i64>, pairs: Seq<(i64, i64)>, k: int)
    requires
        0 <= k < pairs.len(),
        forall|j: int| k < j < pairs.len() ==> (#[trigger] pairs[j]).0 != pairs[k].0,
    ensures
        with_pairs(table, pairs).contains_key(pairs[k].0),
        with_pairs(table, pairs)[pairs[k].0] == pairs[k].1,
    decreases pairs.len(),
{
    let front = pairs.drop_last();
    if k < front.len() {
        assert forall|j: int| k < j < front.len() implies (#[trigger] front[j]).0
            != front[k].0 by {
            assert(front[j] == pairs[j]);
        }
        lemma_last_entry_counts(table, front, k);
        assert(pairs[pairs.len() - 1].0 != pairs[k].0);
    }
}

/// Entries change nothing else.
pub proof fn lemma_other_entries_stay(table: Map<i64, i64>, pairs: Seq<(i64, i64)>, id: i64)
    requires
        forall|j: int| 0 <= j < pairs.len() ==> (#[trigger] pairs[j]).0 != id,
    ensures
        with_pairs(table, pairs).contains_key(id) <==> table.contains_key(id),
        table.contains_key(id) ==> with_pairs(table, pairs)[id] == table[id],
    decreases pairs.len(),
{
    if pairs.len() > 0 {
        let front = pairs.drop_last();
        assert forall|j: int| 0 <= j < front.len() implies (#[trigger] front[j]).0 != id by {
            assert(front[j] == pairs[j]);
        }
        lemma_other_entries_stay(table, front, id);
        assert(pairs[pairs.len() - 1].0 != id);
    }
}

/// The access hash of a chat is the one that is known, and 0 without one.
pub proof fn lemma_known_hash(session: Session, id: i64)
    ensures
        session.peer_hashes@.contains_key(id) ==> session.hash(id) == session.peer_hashes@[id],
        !session.peer_hashes@.contains_key(id) ==> session.hash(id) == 0,
{
}

} // verus!
