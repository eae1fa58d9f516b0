//! Finding the access hash of a channel among the dialogs.

use vstd::prelude::*;

use super::dialogs::{DialogsData, DialogsReply, GetDialogs};
use super::models::{message_id, Chat, Dialog, InputPeer, Message, Peer};
use super::session::Session;

verus! {

/// How many dialogs one page of the scan holds.
pub const PAGE_LIMIT: i32 = 100;

/// How many pages of a folder are scanned.
pub const MAX_PAGES: usize = 20;

/// The folder of archived dialogs.
pub const ARCHIVE_FOLDER: i32 = 1;

/// A page of the scan for a channel.
#[derive(Debug, Clone, Copy)]
pub struct DialogScan {
    pub folder_id: Option<i32>,
    pub page: usize,
    pub offset_date: i32,
    pub offset_id: i32,
    pub offset_peer: InputPeer,
}

/// What a page of the scan leads to.
#[derive(Debug, Clone, Copy)]
pub enum ScanStep {
    Found(i64),
    NotFound,
    Next(DialogScan),
}

/// The first access hash that a list of chats gives for a channel.
pub open spec fn first_hash(chats: Seq<Chat>, id: i64) -> Option<i64>
    decreases chats.len(),
{
    if chats.len() == 0 {
        None
    } else {
        match chats[0] {
            Chat::Channel(c) if c.id == id && c.access_hash is Some => c.access_hash,
            _ => first_hash(chats.drop_first(), id),
        }
    }
}

/// Finds the first access hash that a list of chats gives for a channel.
pub fn find_hash(chats: &Vec<Chat>, id: i64) -> (r: Option<i64>)
    ensures
        r == first_hash(chats@, id),
{
    let mut i: usize = 0;
    proof {
        assert(chats@.skip(0) =~= chats@);
    }
    while i < chats.len()
        invariant
            i <= chats@.len(),
            first_hash(chats@, id) == first_hash(chats@.skip(i as int), id),
        decreases chats@.len() - i,
    {
        proof {
            assert(chats@.skip(i as int).drop_first() =~= chats@.skip(i + 1));
        }
        if let Chat::Channel(c) = &chats[i] {
            if c.id == id {
                if let Some(hash) = c.access_hash {
                    return Some(hash);
                }
            }
        }
        i = i + 1;
    }
    None
}

/// The date of a message that has one.
pub open spec fn date_of(m: Message) -> i32 {
    match m {
        Message::Message(d) => d.date,
        Message::Service { date, .. } => date,
        Message::Empty { .. } => 0,
    }
}

/// The date of the first message with an id, or 0.
pub open spec fn date_of_message(messages: Seq<Message>, id: i32) -> i32
    decreases messages.len(),
{
    if messages.len() == 0 {
        0
    } else if message_id(messages[0]) == id {
        date_of(messages[0])
    } else {
        date_of_message(messages.drop_first(), id)
    }
}

fn find_date(messages: &Vec<Message>, id: i32) -> (r: i32)
    ensures
        r == date_of_message(messages@, id),
{
    let mut i: usize = 0;
    proof {
        assert(messages@.skip(0) =~= messages@);
    }
    while i < messages.len()
        invariant
            i <= messages@.len(),
            date_of_message(messages@, id) == date_of_message(messages@.skip(i as int), id),
        decreases messages@.len() - i,
    {
        proof {
            assert(messages@.skip(i as int).drop_first() =~= messages@.skip(i + 1));
        }
        match &messages[i] {
            Message::Message(d) => if d.id == id {
                return d.date;
            },
            Message::Service { id: mid, date, .. } => if *mid == id {
                return *date;
            },
            Message::Empty { id: mid } => if *mid == id {
                return 0;
            },
        }
        i = i + 1;
    }
    0
}

/// The peer behind which the next page begins.
pub open spec fn offset_peer(peer: Peer, chats: Seq<Chat>) -> InputPeer {
    match peer {
        Peer::User(user_id) => InputPeer::User { user_id, access_hash: 0 },
        Peer::Chat(chat_id) => InputPeer::Chat { chat_id },
        Peer::Channel(channel_id) => InputPeer::Channel {
            channel_id,
            access_hash: match first_hash(chats, channel_id) {
                Some(h) => h,
                None => 0,
            },
        },
    }
}

/// The scan of a folder behind the last dialog of a page.
pub open spec fn next_page(scan: DialogScan, data: DialogsData, complete: bool) -> ScanStep {
    let dialogs = data.dialogs@;
    if complete || dialogs.len() == 0 || scan.page + 1 >= MAX_PAGES {
        ScanStep::NotFound
    } else {
        match dialogs.last() {
            Dialog::Folder => ScanStep::NotFound,
            Dialog::Dialog(d) => ScanStep::Next(
                DialogScan {
                    folder_id: scan.folder_id,
                    page: (scan.page + 1) as usize,
                    offset_date: date_of_message(data.messages@, d.top_message),
                    offset_id: d.top_message,
                    offset_peer: offset_peer(d.peer, data.chats@),
                },
            ),
        }
    }
}

/// What a page of the scan for a channel leads to.
pub open spec fn scan_rule(scan: DialogScan, chat_id: i64, reply: DialogsReply) -> ScanStep {
    match reply {
        DialogsReply::NotModified => ScanStep::NotFound,
        DialogsReply::All(data) => match first_hash(data.chats@, chat_id) {
            Some(h) => ScanStep::Found(h),
            None => next_page(scan, data, true),
        },
        DialogsReply::Slice(data) => match first_hash(data.chats@, chat_id) {
            Some(h) => ScanStep::Found(h),
            None => next_page(scan, data, false),
        },
    }
}

impl DialogScan {
    /// The scan is at a page that may be asked for.
    pub open spec fn well_formed(self) -> bool {
        self.page < MAX_PAGES
    }

    pub open spec fn first(folder_id: Option<i32>) -> DialogScan {
        DialogScan {
            folder_id,
            page: 0,
            offset_date: 0,
            offset_id: 0,
            offset_peer: InputPeer::Empty,
        }
    }

    /// The scan of a folder from its first dialog.
    pub fn start(folder_id: Option<i32>) -> (r: DialogScan)
        ensures
            r == DialogScan::first(folder_id),
            r.well_formed(),
    {
        DialogScan {
            folder_id,
            page: 0,
            offset_date: 0,
            offset_id: 0,
            offset_peer: InputPeer::Empty,
        }
    }

    /// The page to ask for.
    pub fn request(&self) -> (r: GetDialogs)
        ensures
            r == (GetDialogs {
                folder_id: self.folder_id,
                offset_date: self.offset_date,
                offset_id: self.offset_id,
                offset_peer: self.offset_peer,
                limit: PAGE_LIMIT,
            }),
            r.limit == 100,
    {
        GetDialogs {
            folder_id: self.folder_id,
            offset_date: self.offset_date,
            offset_id: self.offset_id,
            offset_peer: self.offset_peer,
            limit: PAGE_LIMIT,
        }
    }
}

fn behind_last(scan: &DialogScan, data: &DialogsData, complete: bool) -> (r: ScanStep)
    requires
        scan.well_formed(),
    ensures
        r == next_page(*scan, *data, complete),
{
    let dialogs = &data.dialogs;
    if complete || dialogs.len() == 0 || scan.page + 1 >= MAX_PAGES {
        return ScanStep::NotFound;
    }
    match &dialogs[dialogs.len() - 1] {
        Dialog::Folder => ScanStep::NotFound,
        Dialog::Dialog(d) => {
            let peer = match &d.peer {
                Peer::User(id) => InputPeer::User { user_id: *id, access_hash: 0 },
                Peer::Chat(id) => InputPeer::Chat { chat_id: *id },
                Peer::Channel(id) => {
                    let access_hash: i64 = match find_hash(&data.chats, *id) {
                        Some(h) => h,
                        None => 0,
                    };
                    InputPeer::Channel { channel_id: *id, access_hash }
                },
            };
            ScanStep::Next(
                DialogScan {
                    folder_id: scan.folder_id,
                    page: scan.page + 1,
                    offset_date: find_date(&data.messages, d.top_message),
                    offset_id: d.top_message,
                    offset_peer: peer,
                },
            )
        },
    }
}

/// Looks for a channel in a page of one folder.
pub fn scan_dialogs_folder_for_channel(scan: &DialogScan, chat_id: i64, reply: &DialogsReply) -> (r:
    ScanStep)
    requires
        scan.well_formed(),
    ensures
        r == scan_rule(*scan, chat_id, *reply),
        r matches ScanStep::Next(next) ==> next.well_formed(),
{
    let (data, complete) = match reply {
        DialogsReply::NotModified => return ScanStep::NotFound,
        DialogsReply::All(data) => (data, true),
        DialogsReply::Slice(data) => (data, false),
    };
    if let Some(hash) = find_hash(&data.chats, chat_id) {
        return ScanStep::Found(hash);
    }
    behind_last(scan, data, complete)
}

/// What a page leads to when the archive is scanned after the other dialogs.
pub open spec fn resolve_rule(scan: DialogScan, chat_id: i64, reply: DialogsReply) -> ScanStep {
    match scan_rule(scan, chat_id, reply) {
        ScanStep::NotFound => if scan.folder_id is None {
            ScanStep::Next(DialogScan::first(Some(ARCHIVE_FOLDER)))
        } else {
            ScanStep::NotFound
        },
        step => step,
    }
}

/// Looks for a channel in a page of the dialogs, then of the archive. The search
/// begins with `DialogScan::start(None)`.
pub fn resolve_channel_access_hash(scan: &DialogScan, chat_id: i64, reply: &DialogsReply) -> (r:
    ScanStep)
    requires
        scan.well_formed(),
    ensures
        r == resolve_rule(*scan, chat_id, *reply),
        r matches ScanStep::Next(next) ==> next.well_formed(),
{
    match scan_dialogs_folder_for_channel(scan, chat_id, reply) {
        ScanStep::NotFound => if scan.folder_id.is_none() {
            ScanStep::Next(DialogScan::start(Some(ARCHIVE_FOLDER)))
        } else {
            ScanStep::NotFound
        },
        step => step,
    }
}

/// How many pages a search can still ask for.
pub open spec fn pages_left(scan: DialogScan) -> int {
    (MAX_PAGES - scan.page) + if scan.folder_id is None {
        MAX_PAGES as int
    } else {
        0
    }
}

/// A search for a channel ends: each page leaves fewer pages to ask for, and none
/// are asked for beyond `MAX_PAGES` of each of the two folders.
pub proof fn lemma_search_ends(scan: DialogScan, chat_id: i64, reply: DialogsReply)
    requires
        scan.well_formed(),
    ensures
        resolve_rule(scan, chat_id, reply) matches ScanStep::Next(next) ==> {
            &&& next.well_formed()
            &&& 0 < pages_left(next) < pages_left(scan)
        },
        pages_left(DialogScan::first(None)) == 2 * MAX_PAGES,
{
}

/// A hash that a search finds is one that the page at hand gives for the channel.
pub proof fn lemma_found_hash_is_listed(chats: Seq<Chat>, id: i64)
    requires
        first_hash(chats, id) is Some,
    ensures
        exists|i: int|
            0 <= i < chats.len() && (#[trigger] chats[i] matches Chat::Channel(c) && c.id == id
                && c.access_hash == first_hash(chats, id)),
    decreases chats.len(),
{
    let here = chats[0] matches Chat::Channel(c) && c.id == id && c.access_hash is Some;
    if here {
        assert(chats[0] matches Chat::Channel(c) && c.id == id && c.access_hash == first_hash(
            chats,
            id,
        ));
    } else {
        let rest = chats.drop_first();
        lemma_found_hash_is_listed(rest, id);
        let i = choose|i: int|
            0 <= i < rest.len() && (#[trigger] rest[i] matches Chat::Channel(c) && c.id == id
                && c.access_hash == first_hash(rest, id));
        assert(chats[i + 1] == rest[i]);
    }
}

/// Remembers the access hash that a search found, if it found one.
pub fn refresh_channel_hash(session: &mut Session, chat_id: i64, found: Option<i64>)
    ensures
        final(session).peer_hashes@ == (match found {
            Some(h) => old(session).peer_hashes@.insert(chat_id, h),
            None => old(session).peer_hashes@,
        }),
        final(session).authenticated == old(session).authenticated,
        final(session).peer_photo_ids == old(session).peer_photo_ids,
        final(session).takeout_session_id == old(session).takeout_session_id,
{
    if let Some(h) = found {
        let _ = session.peer_hashes.put(chat_id, h);
    }
}

// ------------------------------------------------------------ refreshing all hashes

/// The access hashes of the channels of a list written into a table.
pub open spec fn with_hashes(table: Map<i64, i64>, chats: Seq<Chat>) -> Map<i64, i64>
    decreases chats.len(),
{
    if chats.len() == 0 {
        table
    } else {
        let before = with_hashes(table, chats.drop_last());
        match chats.last() {
            Chat::Channel(c) => match c.access_hash {
                Some(h) => before.insert(c.id, h),
                None => before,
            },
            _ => before,
        }
    }
}

/// How many of those writes change the table.
pub open spec fn changed_hashes(table: Map<i64, i64>, chats: Seq<Chat>) -> nat
    decreases chats.len(),
{
    if chats.len() == 0 {
        0
    } else {
        let before = with_hashes(table, chats.drop_last());
        let count = changed_hashes(table, chats.drop_last());
        match chats.last() {
            Chat::Channel(c) => match c.access_hash {
                Some(h) => if before.contains_key(c.id) && before[c.id] == h {
                    count
                } else {
                    count + 1
                },
                None => count,
            },
            _ => count,
        }
    }
}

/// Remembers the access hashes of a reply's channels and says how many were new.
pub fn refresh_all_dialogs(session: &mut Session, chats: &Vec<Chat>) -> (r: usize)
    ensures
        r == changed_hashes(old(session).peer_hashes@, chats@),
        final(session).peer_hashes@ == with_hashes(old(session).peer_hashes@, chats@),
        final(session).authenticated == old(session).authenticated,
        final(session).peer_photo_ids == old(session).peer_photo_ids,
        final(session).takeout_session_id == old(session).takeout_session_id,
{
    let mut updated: usize = 0;
    let mut i: usize = 0;
    while i < chats.len()
        invariant
            i <= chats@.len(),
            updated <= i,
            updated == changed_hashes(old(session).peer_hashes@, chats@.take(i as int)),
            session.peer_hashes@ == with_hashes(old(session).peer_hashes@, chats@.take(i as int)),
            session.authenticated == old(session).authenticated,
            session.peer_photo_ids == old(session).peer_photo_ids,
            session.takeout_session_id == old(session).takeout_session_id,
        decreases chats@.len() - i,
    {
        proof {
            assert(chats@.take(i + 1).drop_last() =~= chats@.take(i as int));
        }
        if let Chat::Channel(c) = &chats[i] {
            if let Some(hash) = c.access_hash {
                let previous = session.peer_hashes.put(c.id, hash);
                let same = match previous {
                    Some(p) => p == hash,
                    None => false,
                };
                if !same {
                    updated = updated + 1;
                }
            }
        }
        i = i + 1;
    }
    proof {
        assert(chats@.take(i as int) =~= chats@);
    }
    updated
}

/// The hash that is found is that of the first channel with the number that has one.
pub proof fn lemma_first_hash(chats: Seq<Chat>, id: i64, k: int)
    requires
        0 <= k < chats.len(),
        chats[k] matches Chat::Channel(c) && c.id == id && c.access_hash is Some,
        forall|i: int|
            0 <= i < k ==> (#[trigger] chats[i] matches Chat::Channel(c) ==> c.id != id
                || c.access_hash is None),
    ensures
        chats[k] matches Chat::Channel(c) && first_hash(chats, id) == c.access_hash,
    decreases k,
{
    if k > 0 {
        let rest = chats.drop_first();
        assert(chats[0] matches Chat::Channel(c) ==> c.id != id || c.access_hash is None);
        assert forall|i: int| 0 <= i < k - 1 implies (#[trigger] rest[i] matches Chat::Channel(c)
            ==> c.id != id || c.access_hash is None) by {
            assert(rest[i] == chats[i + 1]);
        }
        lemma_first_hash(rest, id, k - 1);
    }
}

/// A channel that is on a page, with its hash, is found there, wherever it stands.
pub proof fn lemma_listed_channel_is_found(
    scan: DialogScan,
    data: DialogsData,
    chat_id: i64,
    k: int,
)
    requires
        0 <= k < data.chats@.len(),
        data.chats@[k] matches Chat::Channel(c) && c.id == chat_id && c.access_hash is Some,
    ensures
        resolve_rule(scan, chat_id, DialogsReply::All(data)) is Found,
        resolve_rule(scan, chat_id, DialogsReply::Slice(data)) is Found,
{
    lemma_some_hash(data.chats@, chat_id, k);
}

proof fn lemma_some_hash(chats: Seq<Chat>, id: i64, k: int)
    requires
        0 <= k < chats.len(),
        chats[k] matches Chat::Channel(c) && c.id == id && c.access_hash is Some,
    ensures
        first_hash(chats, id) is Some,
    decreases chats.len(),
{
    if k > 0 {
        assert(chats.drop_first()[k - 1] == chats[k]);
        lemma_some_hash(chats.drop_first(), id, k - 1);
    }
}

/// A channel that is not on a page is looked for on the next one, which begins at the last
/// dialog of this page; the last of twenty pages, or one that holds all there is, leads to
/// the archive, and from there nowhere.
pub proof fn lemma_search_goes_on(scan: DialogScan, data: DialogsData, chat_id: i64)
    requires
        scan.well_formed(),
        forall|i: int|
            0 <= i < data.chats@.len() ==> (#[trigger] data.chats@[i] matches Chat::Channel(c)
                ==> c.id != chat_id || c.access_hash is None),
    ensures
        data.dialogs@.len() > 0 && scan.page < 19 ==> (data.dialogs@.last() matches Dialog::Dialog(
            d,
        ) ==> {
            &&& resolve_rule(scan, chat_id, DialogsReply::Slice(data)) matches ScanStep::Next(n)
                && n.folder_id == scan.folder_id && n.page == scan.page + 1 && n.offset_id
                == d.top_message && n.offset_date == date_of_message(data.messages@, d.top_message)
                && n.offset_peer == offset_peer(d.peer, data.chats@)
        }),
        scan.page == 19 || data.dialogs@.len() == 0 ==> match resolve_rule(
            scan,
            chat_id,
            DialogsReply::Slice(data),
        ) {
            ScanStep::Next(n) => scan.folder_id is None && n.folder_id == Some(1i32) && n.page == 0
                && n.offset_id == 0 && n.offset_date == 0 && n.offset_peer is Empty,
            ScanStep::NotFound => scan.folder_id is Some,
            ScanStep::Found(_) => false,
        },
        match resolve_rule(scan, chat_id, DialogsReply::All(data)) {
            ScanStep::Next(n) => scan.folder_id is None && n.folder_id == Some(1i32) && n.page == 0,
            ScanStep::NotFound => scan.folder_id is Some,
            ScanStep::Found(_) => false,
        },
{
    lemma_no_hash(data.chats@, chat_id);
}

proof fn lemma_no_hash(chats: Seq<Chat>, id: i64)
    requires
        forall|i: int|
            0 <= i < chats.len() ==> (#[trigger] chats[i] matches Chat::Channel(c) ==> c.id != id
                || c.access_hash is None),
    ensures
        first_hash(chats, id) is None,
    decreases chats.len(),
{
    if chats.len() > 0 {
        let rest = chats.drop_first();
        assert(chats[0] matches Chat::Channel(c) ==> c.id != id || c.access_hash is None);
        assert forall|i: int| 0 <= i < rest.len() implies (
        #[trigger] rest[i] matches Chat::Channel(c) ==> c.id != id || c.access_hash is None) by {
            assert(rest[i] == chats[i + 1]);
        }
        lemma_no_hash(rest, id);
    }
}

/// The date from which the next page is asked for is that of the message with the number.
pub proof fn lemma_date_of_message(messages: Seq<Message>, id: i32, k: int)
    requires
        0 <= k < messages.len(),
        message_id(messages[k]) == id,
        forall|i: int| 0 <= i < k ==> message_id(#[trigger] messages[i]) != id,
    ensures
        date_of_message(messages, id) == (match messages[k] {
            Message::Message(m) => m.date,
            Message::Service { date, .. } => date,
            Message::Empty { .. } => 0,
        }),
    decreases k,
{
    if k > 0 {
        let rest = messages.drop_first();
        assert(message_id(messages[0]) != id);
        assert forall|i: int| 0 <= i < k - 1 implies message_id(#[trigger] rest[i]) != id by {
            assert(rest[i] == messages[i + 1]);
        }
        lemma_date_of_message(rest, id, k - 1);
    }
}

/// The hash of every channel of a list is remembered, that of the last where one occurs
/// twice, and no other hash changes.
pub proof fn lemma_hashes_are_remembered(table: Map<i64, i64>, chats: Seq<Chat>, id: i64)
    ensures
        match last_hash(chats, id) {
            Some(h) => with_hashes(table, chats).contains_key(id) && with_hashes(table, chats)[id]
                == h,
            None => {
                &&& with_hashes(table, chats).contains_key(id) <==> table.contains_key(id)
                &&& table.contains_key(id) ==> with_hashes(table, chats)[id] == table[id]
            },
        },
    decreases chats.len(),
{
    if chats.len() > 0 {
        lemma_hashes_are_remembered(table, chats.drop_last(), id);
    }
}

/// The last access hash that a list of chats gives for a channel.
pub open spec fn last_hash(chats: Seq<Chat>, id: i64) -> Option<i64>
    decreases chats.len(),
{
    if chats.len() == 0 {
        None
    } else if chats.last() matches Chat::Channel(c) && c.id == id && c.access_hash is Some {
        chats.last()->Channel_0.access_hash
    } else {
        last_hash(chats.drop_last(), id)
    }
}

/// As many hashes are reported as changed as there were channels whose hash was not the
/// known one: none where all were known, and at most as many as there are chats.
pub proof fn lemma_changes_are_counted(table: Map<i64, i64>, chats: Seq<Chat>)
    ensures
        changed_hashes(table, chats) <= chats.len(),
        changed_hashes(table, chats) == 0 ==> with_hashes(table, chats) == table,
        with_hashes(table, chats) != table ==> changed_hashes(table, chats) > 0,
    decreases chats.len(),
{
    if chats.len() > 0 {
        let front = chats.drop_last();
        lemma_changes_are_counted(table, front);
        if changed_hashes(table, chats) == 0 {
            assert(with_hashes(table, chats) =~= table);
        }
    }
}

/// The page after a dialog is asked for by the peer of the dialog, and by the access hash of
/// a channel where the page gives one.
pub proof fn lemma_offset_peers(peer: Peer, chats: Seq<Chat>)
    ensures
        match peer {
            Peer::User(id) => offset_peer(peer, chats) == (InputPeer::User {
                user_id: id,
                access_hash: 0,
            }),
            Peer::Chat(id) => offset_peer(peer, chats) == (InputPeer::Chat { chat_id: id }),
            Peer::Channel(id) => offset_peer(peer, chats) matches InputPeer::Channel {
                channel_id,
                access_hash,
            } && channel_id == id && (first_hash(chats, id) matches Some(h) ==> access_hash == h),
        },
{
}

/// A date that no message of the reply has is 0.
pub proof fn lemma_no_date(messages: Seq<Message>, id: i32)
    requires
        forall|i: int| 0 <= i < messages.len() ==> message_id(#[trigger] messages[i]) != id,
    ensures
        date_of_message(messages, id) == 0,
    decreases messages.len(),
{
    if messages.len() > 0 {
        let rest = messages.drop_first();
        assert(message_id(messages[0]) != id);
        assert forall|i: int| 0 <= i < rest.len() implies message_id(#[trigger] rest[i]) != id by {
            assert(rest[i] == messages[i + 1]);
        }
        lemma_no_date(rest, id);
    }
}

} // verus!
