//! The list of chats, page by page and all at once.

use vstd::prelude::*;

use super::lookup::{
    find_chat, find_user, is_chat, last_chat, last_user, lemma_last_chat, lemma_last_user,
};
use super::media::{media_preview_label, preview_label};
use super::models::{
    Chat, Dialog, DialogData, InputPeer, Message, MessageData, Peer, User, UserData,
};
use super::requests::{input_peer, make_input_peer, TelegramChat};
use super::rpc::{flood_wait, parse_flood_wait};
use super::session::{put_all, with_pairs, ApiError, PeerTable, Session};
use crate::text::{
    blank_text, chars_of, decimal, decimal_text, is_blank, joined, joined3, opt_text,
    signed_decimal, signed_text, text_of,
};

verus! {

/// Where the next page of the list of chats begins.
#[derive(Debug, Clone)]
pub struct ChatPageOffset {
    pub date: i32,
    pub id: i32,
    pub peer_id: i64,
    pub peer_type: String,
    pub peer_hash: i64,
}

/// A page of the list of chats.
#[derive(Debug, Clone)]
pub struct ChatPage {
    pub chats: Vec<TelegramChat>,
    pub next_offset: Option<ChatPageOffset>,
}

/// A page of dialogs to ask for.
#[derive(Debug, Clone, Copy, PartialEq, Eq, Structural)]
pub struct GetDialogs {
    pub folder_id: Option<i32>,
    pub offset_date: i32,
    pub offset_id: i32,
    pub offset_peer: InputPeer,
    pub limit: i32,
}

/// What comes with a page of dialogs.
pub struct DialogsData {
    pub dialogs: Vec<Dialog>,
    pub messages: Vec<Message>,
    pub chats: Vec<Chat>,
    pub users: Vec<User>,
}

/// A reply with dialogs: all there are, a page of them, or none that changed.
pub enum DialogsReply {
    All(DialogsData),
    Slice(DialogsData),
    NotModified,
}

/// A page size brought into the range 1 to 100.
pub open spec fn page_limit(limit: i32) -> i32 {
    if limit < 1 {
        1
    } else if limit > 100 {
        100
    } else {
        limit
    }
}

/// The page of dialogs to ask for, from where the last one ended.
pub fn list_chats_page(
    session: &Session,
    offset_date: i32,
    offset_id: i32,
    offset_peer: &Option<(i64, String, i64)>,
    limit: i32,
) -> (r: Result<GetDialogs, ApiError>)
    ensures
        r == (if session.authenticated {
            Ok(
                GetDialogs {
                    folder_id: None,
                    offset_date,
                    offset_id,
                    offset_peer: match *offset_peer {
                        Some((id, kind, hash)) => input_peer(id, kind@, hash),
                        None => InputPeer::Empty,
                    },
                    limit: page_limit(limit),
                },
            )
        } else {
            Err(ApiError::NotAuthenticated)
        }),
{
    if !session.authenticated {
        return Err(ApiError::NotAuthenticated);
    }
    let clamped: i32 = if limit < 1 {
        1
    } else if limit > 100 {
        100
    } else {
        limit
    };
    let peer = match offset_peer {
        Some((id, kind, hash)) => make_input_peer(*id, kind.as_str(), *hash),
        None => InputPeer::Empty,
    };
    Ok(GetDialogs { folder_id: None, offset_date, offset_id, offset_peer: peer, limit: clamped })
}

/// A page holds as many chats as are asked for, from 1 to 100.
pub proof fn lemma_page_limit(limit: i32)
    ensures
        1 <= page_limit(limit) <= 100,
        1 <= limit <= 100 ==> page_limit(limit) == limit,
        limit > 100 ==> page_limit(limit) == 100,
        limit < 1 ==> page_limit(limit) == 1,
{
}

// ------------------------------------------------------------ one row

/// What the list shows of a chat itself: its type, title, access hash, and whether
/// it is verified and online.
pub struct ChatHead {
    pub kind: String,
    pub title: String,
    pub access_hash: i64,
    pub verified: bool,
    pub online: bool,
}

/// The title of a private chat.
pub open spec fn user_title(u: UserData) -> Seq<char> {
    match (u.first_name, u.last_name) {
        (Some(f), Some(l)) => if l@.len() > 0 {
            f@ + " "@ + l@
        } else {
            f@
        },
        (Some(f), None) => f@,
        (None, _) => "user_"@ + signed_decimal(u.id as int),
    }
}

fn title_of_user(u: &UserData) -> (r: String)
    ensures
        r@ == user_title(*u),
{
    match (&u.first_name, &u.last_name) {
        (Some(f), Some(l)) => if l.as_str().unicode_len() > 0 {
            joined3(f.as_str(), " ", l.as_str())
        } else {
            f.clone()
        },
        (Some(f), None) => f.clone(),
        (None, _) => {
            let id = signed_text(u.id);
            joined("user_", id.as_str())
        },
    }
}

pub open spec fn hash_or_zero(hash: Option<i64>) -> i64 {
    match hash {
        Some(h) => h,
        None => 0,
    }
}

fn or_zero(hash: Option<i64>) -> (r: i64)
    ensures
        r == hash_or_zero(hash),
{
    match hash {
        Some(h) => h,
        None => 0,
    }
}

/// A reply describes the chat of a peer.
pub open spec fn is_described(peer: Peer, chats: Seq<Chat>, users: Seq<User>) -> bool {
    match peer {
        Peer::User(id) => last_user(users, id) is Some,
        Peer::Chat(id) => last_chat(chats, id) is Some,
        Peer::Channel(id) => last_chat(chats, id) is Some,
    }
}

/// `head` is what a reply says of a basic group or a channel.
pub open spec fn chat_head_matches(chat: Chat, head: ChatHead) -> bool {
    match chat {
        Chat::Chat(c) => {
            &&& head.kind@ == "group"@
            &&& head.title@ == c.title@
            &&& head.access_hash == 0
            &&& !head.verified
            &&& !head.online
        },
        Chat::Channel(c) => {
            &&& head.kind@ == (if c.broadcast {
                "channel"@
            } else {
                "group"@
            })
            &&& head.title@ == c.title@
            &&& head.access_hash == hash_or_zero(c.access_hash)
            &&& head.verified == c.verified
            &&& !head.online
        },
        Chat::Other => false,
    }
}

/// `head` is what a reply says of the chat of a peer.
pub open spec fn head_matches(peer: Peer, chats: Seq<Chat>, users: Seq<User>, head: ChatHead) -> bool {
    match peer {
        Peer::User(id) => last_user(users, id) matches Some(u) && {
            &&& head.kind@ == "private"@
            &&& head.title@ == user_title(u)
            &&& head.access_hash == hash_or_zero(u.access_hash)
            &&& head.verified == u.verified
            &&& head.online == u.online
        },
        Peer::Chat(id) => last_chat(chats, id) matches Some(c) && chat_head_matches(c, head),
        Peer::Channel(id) => last_chat(chats, id) matches Some(c) && chat_head_matches(c, head),
    }
}

fn head_of_chat(id: i64, chats: &Vec<Chat>) -> (r: Option<ChatHead>)
    ensures
        r is Some <==> last_chat(chats@, id) is Some,
        r matches Some(head) ==> chat_head_matches(last_chat(chats@, id)->0, head),
{
    match find_chat(chats, id) {
        Some(Chat::Chat(c)) => Some(
            ChatHead {
                kind: "group".to_owned(),
                title: c.title.clone(),
                access_hash: 0,
                verified: false,
                online: false,
            },
        ),
        Some(Chat::Channel(c)) => Some(
            ChatHead {
                kind: if c.broadcast {
                    "channel".to_owned()
                } else {
                    "group".to_owned()
                },
                title: c.title.clone(),
                access_hash: or_zero(c.access_hash),
                verified: c.verified,
                online: false,
            },
        ),
        _ => None,
    }
}

fn head_of_peer(peer: &Peer, chats: &Vec<Chat>, users: &Vec<User>) -> (r: Option<ChatHead>)
    ensures
        r is Some <==> is_described(*peer, chats@, users@),
        r matches Some(head) ==> head_matches(*peer, chats@, users@, head),
{
    match peer {
        Peer::User(id) => match find_user(users, *id) {
            Some(u) => Some(
                ChatHead {
                    kind: "private".to_owned(),
                    title: title_of_user(u),
                    access_hash: or_zero(u.access_hash),
                    verified: u.verified,
                    online: u.online,
                },
            ),
            None => None,
        },
        Peer::Chat(id) => head_of_chat(*id, chats),
        Peer::Channel(id) => head_of_chat(*id, chats),
    }
}

/// The number of a peer.
pub open spec fn peer_number(peer: Peer) -> i64 {
    match peer {
        Peer::User(id) => id,
        Peer::Chat(id) => id,
        Peer::Channel(id) => id,
    }
}

/// What a peer is called.
pub open spec fn peer_kind(peer: Peer) -> Seq<char> {
    match peer {
        Peer::User(_) => "private"@,
        Peer::Chat(_) => "group"@,
        Peer::Channel(_) => "channel"@,
    }
}

/// The kind and the number of a peer.
pub fn peer_kind_id(peer: &Peer) -> (r: (String, i64))
    ensures
        r.0@ == peer_kind(*peer),
        r.1 == peer_number(*peer),
{
    match peer {
        Peer::User(id) => ("private".to_owned(), *id),
        Peer::Chat(id) => ("group".to_owned(), *id),
        Peer::Channel(id) => ("channel".to_owned(), *id),
    }
}

fn id_of_peer(peer: &Peer) -> (r: i64)
    ensures
        r == peer_number(*peer),
{
    match peer {
        Peer::User(id) => *id,
        Peer::Chat(id) => *id,
        Peer::Channel(id) => *id,
    }
}

/// The id, date and preview text of a message.
pub struct Preview {
    pub id: i32,
    pub date: i32,
    pub text: String,
}

/// The preview text of a message: its text, or what stands for its media.
pub open spec fn preview_text(m: MessageData) -> Seq<char> {
    if is_blank(m.text@) {
        preview_label(m.media)
    } else {
        m.text@
    }
}

/// The id, date and preview text of a message in the chat of a peer.
pub open spec fn preview_in(m: Message, peer: Peer) -> Option<(i32, i32, Seq<char>)> {
    match m {
        Message::Message(d) if d.peer == peer => Some((d.id, d.date, preview_text(d))),
        Message::Service { id, date, peer: p } if p == peer => Some((id, date, Seq::empty())),
        _ => None,
    }
}

/// The preview of the last message in the chat of a peer.
pub open spec fn last_preview(messages: Seq<Message>, peer: Peer) -> Option<(i32, i32, Seq<char>)>
    decreases messages.len(),
{
    if messages.len() == 0 {
        None
    } else if preview_in(messages.last(), peer) is Some {
        preview_in(messages.last(), peer)
    } else {
        last_preview(messages.drop_last(), peer)
    }
}

pub open spec fn preview_view(p: Option<Preview>) -> Option<(i32, i32, Seq<char>)> {
    match p {
        Some(v) => Some((v.id, v.date, v.text@)),
        None => None,
    }
}

fn preview_of(m: &Message, peer: &Peer) -> (r: Option<Preview>)
    ensures
        preview_view(r) == preview_in(*m, *peer),
{
    match m {
        Message::Message(d) => if d.peer == *peer {
            let text = if blank_text(d.text.as_str()) {
                media_preview_label(&d.media).to_owned()
            } else {
                d.text.clone()
            };
            Some(Preview { id: d.id, date: d.date, text })
        } else {
            None
        },
        Message::Service { id, date, peer: p } => if *p == *peer {
            Some(Preview { id: *id, date: *date, text: String::new() })
        } else {
            None
        },
        Message::Empty { .. } => None,
    }
}

fn find_preview(messages: &Vec<Message>, peer: &Peer) -> (r: Option<Preview>)
    ensures
        preview_view(r) == last_preview(messages@, *peer),
{
    let mut i: usize = messages.len();
    proof {
        assert(messages@.take(i as int) =~= messages@);
    }
    while i > 0
        invariant
            i <= messages@.len(),
            last_preview(messages@, *peer) == last_preview(messages@.take(i as int), *peer),
        decreases i,
    {
        i = i - 1;
        proof {
            assert(messages@.take(i + 1).drop_last() =~= messages@.take(i as int));
        }
        if let Some(p) = preview_of(&messages[i], peer) {
            return Some(p);
        }
    }
    None
}

/// How many characters of a message the list of chats shows.
pub const PREVIEW_CHARS: usize = 80;

/// What the list of chats shows of a preview text: its first characters, or nothing
/// of an empty one.
pub open spec fn shortened(text: Seq<char>) -> Option<Seq<char>> {
    if text.len() == 0 {
        None
    } else if text.len() <= PREVIEW_CHARS {
        Some(text)
    } else {
        Some(text.take(PREVIEW_CHARS as int))
    }
}

fn shorten(text: &str) -> (r: Option<String>)
    ensures
        opt_text(r) == shortened(text@),
{
    let cs = chars_of(text);
    if cs.len() == 0 {
        None
    } else if cs.len() <= PREVIEW_CHARS {
        Some(text.to_owned())
    } else {
        let short = text_of(&cs, 0, PREVIEW_CHARS);
        proof {
            assert(short@ =~= text@.take(PREVIEW_CHARS as int));
        }
        Some(short)
    }
}

pub open spec fn is_muted(mute_until: Option<i32>, now: i32) -> bool {
    mute_until matches Some(t) && t > now
}

/// `row` shows a dialog at the moment `now`.
pub open spec fn row_matches(dialog: DialogData, data: DialogsData, now: i32, row: TelegramChat) -> bool {
    &&& row.id == peer_number(dialog.peer)
    &&& head_matches(
        dialog.peer,
        data.chats@,
        data.users@,
        (ChatHead {
            kind: row.chat_type,
            title: row.title,
            access_hash: row.peer_hash,
            verified: row.is_verified,
            online: row.is_online,
        }),
    )
    &&& row.unread_count == dialog.unread_count
    &&& row.is_pinned == dialog.pinned
    &&& row.is_muted == is_muted(dialog.mute_until, now)
    &&& match last_preview(data.messages@, dialog.peer) {
        Some((id, date, text)) => {
            &&& opt_text(row.last_message) == shortened(text)
            &&& row.last_message_date == Some(date)
        },
        None => row.last_message is None && row.last_message_date is None,
    }
}

/// The dialogs whose chats a reply describes, in their order.
pub open spec fn shown_dialogs(
    dialogs: Seq<Dialog>,
    chats: Seq<Chat>,
    users: Seq<User>,
) -> Seq<DialogData>
    decreases dialogs.len(),
{
    if dialogs.len() == 0 {
        Seq::empty()
    } else {
        let before = shown_dialogs(dialogs.drop_last(), chats, users);
        match dialogs.last() {
            Dialog::Dialog(d) => if is_described(d.peer, chats, users) {
                before.push(d)
            } else {
                before
            },
            Dialog::Folder => before,
        }
    }
}

/// The id and date of the last message of the last of some dialogs that has one; 0
/// and 0 without any.
pub open spec fn last_seen(dialogs: Seq<DialogData>, messages: Seq<Message>) -> (i32, i32)
    decreases dialogs.len(),
{
    if dialogs.len() == 0 {
        (0, 0)
    } else {
        match last_preview(messages, dialogs.last().peer) {
            Some((id, date, _)) => (id, date),
            None => last_seen(dialogs.drop_last(), messages),
        }
    }
}

/// The access hashes that the rows of a page carry.
pub open spec fn row_hashes(rows: Seq<TelegramChat>) -> Seq<(i64, i64)> {
    rows.map_values(|row: TelegramChat| (row.id, row.peer_hash))
}

// ------------------------------------------------------------ photos

pub open spec fn user_photo(user: User) -> Seq<(i64, i64)> {
    match user {
        User::User(u) => match u.photo_id {
            Some(p) => seq![(u.id, p)],
            None => Seq::empty(),
        },
        User::Empty => Seq::empty(),
    }
}

pub open spec fn chat_photo(chat: Chat) -> Seq<(i64, i64)> {
    match chat {
        Chat::Chat(c) => match c.photo_id {
            Some(p) => seq![(c.id, p)],
            None => Seq::empty(),
        },
        Chat::Channel(c) => match c.photo_id {
            Some(p) => seq![(c.id, p)],
            None => Seq::empty(),
        },
        Chat::Other => Seq::empty(),
    }
}

/// The photos of users, each with its owner.
pub open spec fn user_photos(users: Seq<User>) -> Seq<(i64, i64)>
    decreases users.len(),
{
    if users.len() == 0 {
        Seq::empty()
    } else {
        user_photos(users.drop_last()) + user_photo(users.last())
    }
}

/// The photos of chats, each with its owner.
pub open spec fn chat_photos(chats: Seq<Chat>) -> Seq<(i64, i64)>
    decreases chats.len(),
{
    if chats.len() == 0 {
        Seq::empty()
    } else {
        chat_photos(chats.drop_last()) + chat_photo(chats.last())
    }
}

fn photos_of(users: &Vec<User>, chats: &Vec<Chat>) -> (r: Vec<(i64, i64)>)
    ensures
        r@ == user_photos(users@) + chat_photos(chats@),
{
    let mut out: Vec<(i64, i64)> = Vec::new();
    let mut i: usize = 0;
    while i < users.len()
        invariant
            i <= users@.len(),
            out@ == user_photos(users@.take(i as int)),
        decreases users@.len() - i,
    {
        proof {
            assert(users@.take(i + 1).drop_last() =~= users@.take(i as int));
        }
        if let User::User(u) = &users[i] {
            if let Some(p) = u.photo_id {
                out.push((u.id, p));
            }
        }
        proof {
            assert(out@ =~= user_photos(users@.take(i + 1)));
        }
        i = i + 1;
    }
    let mut j: usize = 0;
    proof {
        assert(users@.take(i as int) =~= users@);
        assert(out@ =~= user_photos(users@) + chat_photos(chats@.take(0)));
    }
    while j < chats.len()
        invariant
            j <= chats@.len(),
            out@ == user_photos(users@) + chat_photos(chats@.take(j as int)),
        decreases chats@.len() - j,
    {
        proof {
            assert(chats@.take(j + 1).drop_last() =~= chats@.take(j as int));
        }
        match &chats[j] {
            Chat::Chat(c) => if let Some(p) = c.photo_id {
                out.push((c.id, p));
            },
            Chat::Channel(c) => if let Some(p) = c.photo_id {
                out.push((c.id, p));
            },
            Chat::Other => {},
        }
        proof {
            assert(out@ =~= user_photos(users@) + chat_photos(chats@.take(j + 1)));
        }
        j = j + 1;
    }
    proof {
        assert(chats@.take(j as int) =~= chats@);
    }
    out
}

// ------------------------------------------------------------ a page

/// `rows` show the dialogs of a page, one row for each that is described.
pub open spec fn rows_match(data: DialogsData, now: i32, rows: Seq<TelegramChat>) -> bool {
    let shown = shown_dialogs(data.dialogs@, data.chats@, data.users@);
    &&& rows.len() == shown.len()
    &&& forall|i: int| 0 <= i < rows.len() ==> row_matches(shown[i], data, now, #[trigger] rows[i])
}

/// `offset` is where the page after `rows` begins: behind the last row, from the
/// last message seen. There is none where the page was not full.
pub open spec fn offset_matches(
    data: DialogsData,
    rows: Seq<TelegramChat>,
    limit: i32,
    offset: Option<ChatPageOffset>,
) -> bool {
    if (rows.len() as i32) >= limit && rows.len() > 0 {
        let shown = shown_dialogs(data.dialogs@, data.chats@, data.users@);
        offset matches Some(o) && {
            &&& o.id == last_seen(shown, data.messages@).0
            &&& o.date == last_seen(shown, data.messages@).1
            &&& o.peer_id == rows.last().id
            &&& o.peer_type@ == rows.last().chat_type@
            &&& o.peer_hash == rows.last().peer_hash
        }
    } else {
        offset is None
    }
}

fn row_of(dialog: &DialogData, head: ChatHead, data: &DialogsData, now: i32) -> (r: (
    TelegramChat,
    Option<(i32, i32)>,
))
    requires
        head_matches(dialog.peer, data.chats@, data.users@, head),
    ensures
        row_matches(*dialog, *data, now, r.0),
        r.1 == (match last_preview(data.messages@, dialog.peer) {
            Some((id, date, _)) => Some((id, date)),
            None => None,
        }),
{
    let muted = match dialog.mute_until {
        Some(t) => t > now,
        None => false,
    };
    let (last_message, last_message_date, seen) = match find_preview(
        &data.messages,
        &dialog.peer,
    ) {
        Some(p) => (shorten(p.text.as_str()), Some(p.date), Some((p.id, p.date))),
        None => (None, None, None),
    };
    let row = TelegramChat {
        id: id_of_peer(&dialog.peer),
        title: head.title,
        chat_type: head.kind,
        peer_hash: head.access_hash,
        last_message,
        last_message_date,
        unread_count: dialog.unread_count,
        is_muted: muted,
        is_pinned: dialog.pinned,
        is_verified: head.verified,
        is_online: head.online,
    };
    (row, seen)
}

/// Shows the dialogs of a reply at the moment `now`, with where the next page begins.
pub fn rows_of(data: &DialogsData, limit: i32, now: i32) -> (r: ChatPage)
    ensures
        rows_match(*data, now, r.chats@),
        offset_matches(*data, r.chats@, limit, r.next_offset),
{
    let mut rows: Vec<TelegramChat> = Vec::new();
    let mut seen: (i32, i32) = (0, 0);
    let mut i: usize = 0;
    let dialogs = &data.dialogs;
    while i < dialogs.len()
        invariant
            i <= dialogs@.len(),
            dialogs@ == data.dialogs@,
            ({
                let shown = shown_dialogs(dialogs@.take(i as int), data.chats@, data.users@);
                &&& rows@.len() == shown.len()
                &&& forall|j: int|
                    0 <= j < rows@.len() ==> row_matches(shown[j], *data, now, #[trigger] rows@[j])
                &&& seen == last_seen(shown, data.messages@)
            }),
        decreases dialogs@.len() - i,
    {
        proof {
            assert(dialogs@.take(i + 1).drop_last() =~= dialogs@.take(i as int));
        }
        if let Dialog::Dialog(d) = &dialogs[i] {
            if let Some(head) = head_of_peer(&d.peer, &data.chats, &data.users) {
                let (row, last) = row_of(d, head, data, now);
                rows.push(row);
                proof {
                    let before = shown_dialogs(dialogs@.take(i as int), data.chats@, data.users@);
                    let shown = before.push(*d);
                    assert(shown.drop_last() =~= before);
                }
                if let Some(at) = last {
                    seen = at;
                }
            }
        }
        i = i + 1;
    }
    proof {
        assert(dialogs@.take(i as int) =~= data.dialogs@);
    }
    let next_offset = if rows.len() as i32 >= limit && rows.len() > 0 {
        let last = &rows[rows.len() - 1];
        Some(
            ChatPageOffset {
                date: seen.1,
                id: seen.0,
                peer_id: last.id,
                peer_type: last.chat_type.clone(),
                peer_hash: last.peer_hash,
            },
        )
    } else {
        None
    };
    ChatPage { chats: rows, next_offset }
}

fn hashes_of(rows: &Vec<TelegramChat>) -> (r: Vec<(i64, i64)>)
    ensures
        r@ == row_hashes(rows@),
{
    let mut out: Vec<(i64, i64)> = Vec::new();
    let mut i: usize = 0;
    while i < rows.len()
        invariant
            i <= rows@.len(),
            out@ =~= row_hashes(rows@.take(i as int)),
        decreases rows@.len() - i,
    {
        out.push((rows[i].id, rows[i].peer_hash));
        i = i + 1;
    }
    proof {
        assert(rows@.take(i as int) =~= rows@);
    }
    out
}

/// The data of a reply, where it has any.
pub open spec fn reply_data(reply: DialogsReply) -> Option<DialogsData> {
    match reply {
        DialogsReply::All(d) => Some(d),
        DialogsReply::Slice(d) => Some(d),
        DialogsReply::NotModified => None,
    }
}

/// Shows a reply's dialogs at the moment `now` and remembers the access hashes and
/// photos that came with them.
pub fn chats_page(session: &mut Session, reply: &DialogsReply, limit: i32, now: i32) -> (r: ChatPage)
    ensures
        match reply_data(*reply) {
            Some(data) => {
                &&& rows_match(data, now, r.chats@)
                &&& offset_matches(data, r.chats@, limit, r.next_offset)
                &&& final(session).peer_hashes@ == with_pairs(
                    old(session).peer_hashes@,
                    row_hashes(r.chats@),
                )
                &&& final(session).peer_photo_ids@ == with_pairs(
                    old(session).peer_photo_ids@,
                    user_photos(data.users@) + chat_photos(data.chats@),
                )
                &&& final(session).authenticated == old(session).authenticated
                &&& final(session).takeout_session_id == old(session).takeout_session_id
            },
            None => {
                &&& r.chats@.len() == 0
                &&& r.next_offset is None
                &&& *final(session) == *old(session)
            },
        },
{
    let data = match reply {
        DialogsReply::All(d) => d,
        DialogsReply::Slice(d) => d,
        DialogsReply::NotModified => return ChatPage { chats: Vec::new(), next_offset: None },
    };
    let page = rows_of(data, limit, now);
    put_all(&mut session.peer_hashes, &hashes_of(&page.chats));
    put_all(&mut session.peer_photo_ids, &photos_of(&data.users, &data.chats));
    page
}

/// Every chat that a page shows can be named in a request afterwards: its access
/// hash is the one that the last row with its id carries.
pub proof fn lemma_page_hashes_are_known(table: Map<i64, i64>, rows: Seq<TelegramChat>, i: int)
    requires
        0 <= i < rows.len(),
        forall|j: int| i < j < rows.len() ==> #[trigger] rows[j].id != rows[i].id,
    ensures
        with_pairs(table, row_hashes(rows)).contains_key(rows[i].id),
        with_pairs(table, row_hashes(rows))[rows[i].id] == rows[i].peer_hash,
    decreases rows.len(),
{
    assert(row_hashes(rows).drop_last() =~= row_hashes(rows.drop_last()));
    if i < rows.len() - 1 {
        let t = rows.drop_last();
        assert forall|j: int| i < j < t.len() implies #[trigger] t[j].id != t[i].id by {
            assert(t[j] == rows[j]);
        }
        lemma_page_hashes_are_known(table, t, i);
        assert(rows[rows.len() - 1].id != rows[i].id);
    }
}

/// A user, a basic group or a channel that a reply lists.
pub open spec fn is_listed(peer: Peer, chats: Seq<Chat>, users: Seq<User>) -> bool {
    match peer {
        Peer::User(id) => exists|i: int|
            0 <= i < users.len() && (#[trigger] users[i] matches User::User(u) && u.id == id),
        Peer::Chat(id) => exists|i: int| 0 <= i < chats.len() && is_chat(#[trigger] chats[i], id),
        Peer::Channel(id) => exists|i: int|
            0 <= i < chats.len() && is_chat(#[trigger] chats[i], id),
    }
}

/// A dialog is shown exactly where its user or chat is listed.
pub proof fn lemma_described_is_listed(peer: Peer, chats: Seq<Chat>, users: Seq<User>)
    ensures
        is_described(peer, chats, users) <==> is_listed(peer, chats, users),
{
    match peer {
        Peer::User(id) => {
            lemma_last_user(users, id);
        },
        Peer::Chat(id) => {
            lemma_last_chat(chats, id);
        },
        Peer::Channel(id) => {
            lemma_last_chat(chats, id);
        },
    }
}

/// The dialogs of two runs are shown one after the other; a dialog whose chat is listed is
/// shown, whatever else is known of it, and no other is.
pub proof fn lemma_dialogs_add_up(
    a: Seq<Dialog>,
    b: Seq<Dialog>,
    d: DialogData,
    chats: Seq<Chat>,
    users: Seq<User>,
)
    ensures
        shown_dialogs(a + b, chats, users) == shown_dialogs(a, chats, users) + shown_dialogs(
            b,
            chats,
            users,
        ),
        shown_dialogs(seq![Dialog::Dialog(d)], chats, users) == (if is_listed(
            d.peer,
            chats,
            users,
        ) {
            seq![d]
        } else {
            Seq::empty()
        }),
        shown_dialogs(seq![Dialog::Folder], chats, users) == Seq::<DialogData>::empty(),
    decreases b.len(),
{
    let none = Seq::<Dialog>::empty();
    lemma_described_is_listed(d.peer, chats, users);
    assert(seq![Dialog::Dialog(d)].drop_last() =~= none);
    assert(seq![Dialog::Folder].drop_last() =~= none);
    assert(shown_dialogs(none, chats, users) =~= Seq::<DialogData>::empty());
    if is_listed(d.peer, chats, users) {
        assert(shown_dialogs(seq![Dialog::Dialog(d)], chats, users) =~= seq![d]);
    }
    let whole = shown_dialogs(a + b, chats, users);
    let parts = shown_dialogs(a, chats, users) + shown_dialogs(b, chats, users);
    if b.len() == 0 {
        assert(a + b =~= a);
        assert(whole =~= parts);
    } else {
        lemma_dialogs_add_up(a, b.drop_last(), d, chats, users);
        assert((a + b).drop_last() =~= a + b.drop_last());
        assert(whole =~= parts);
    }
}

/// What a row shows of its dialog: the number of the chat, whether it is pinned and muted,
/// and how much of it is unread.
pub open spec fn shows_dialog(row: TelegramChat, d: DialogData, now: i32) -> bool {
    &&& match d.peer {
        Peer::User(id) => row.id == id && row.chat_type@ == "private"@,
        Peer::Chat(id) => row.id == id,
        Peer::Channel(id) => row.id == id,
    }
    &&& row.is_pinned == d.pinned
    &&& row.unread_count == d.unread_count
    &&& row.is_muted <==> (d.mute_until matches Some(t) && t > now)
}

/// Every dialog of a reply whose chat is listed has a row of its own, which stands behind
/// those of the dialogs before it.
pub proof fn lemma_every_dialog_has_a_row(
    data: DialogsData,
    now: i32,
    rows: Seq<TelegramChat>,
    k: int,
)
    requires
        rows_match(data, now, rows),
        0 <= k < data.dialogs@.len(),
        data.dialogs@[k] matches Dialog::Dialog(d) && is_listed(d.peer, data.chats@, data.users@),
    ensures
        ({
            let before = shown_dialogs(data.dialogs@.take(k), data.chats@, data.users@).len() as int;
            &&& before < rows.len()
            &&& before <= k
            &&& shows_dialog(rows[before], data.dialogs@[k]->Dialog_0, now)
        }),
{
    let dialogs = data.dialogs@;
    let chats = data.chats@;
    let users = data.users@;
    let d = dialogs[k]->Dialog_0;
    let head = dialogs.take(k);
    let rest = dialogs.skip(k + 1);
    let one = seq![Dialog::Dialog(d)];
    assert(head + one + rest =~= dialogs);
    lemma_dialogs_add_up(head, one, d, chats, users);
    lemma_dialogs_add_up(head + one, rest, d, chats, users);
    lemma_shown_are_fewer(head, chats, users);
    let at = shown_dialogs(head, chats, users).len() as int;
    let shown = shown_dialogs(dialogs, chats, users);
    assert(shown[at] == d);
    assert(row_matches(shown[at], data, now, rows[at]));
}

/// There are no more rows than dialogs, and each shows one of them.
pub proof fn lemma_every_row_shows_a_dialog(
    data: DialogsData,
    now: i32,
    rows: Seq<TelegramChat>,
    i: int,
)
    requires
        rows_match(data, now, rows),
        0 <= i < rows.len(),
    ensures
        rows.len() <= data.dialogs@.len(),
        exists|k: int|
            0 <= k < data.dialogs@.len() && (#[trigger] data.dialogs@[k] matches Dialog::Dialog(d)
                && is_listed(d.peer, data.chats@, data.users@) && shows_dialog(rows[i], d, now)),
{
    let shown = shown_dialogs(data.dialogs@, data.chats@, data.users@);
    lemma_shown_are_fewer(data.dialogs@, data.chats@, data.users@);
    assert(row_matches(shown[i], data, now, rows[i]));
    let k = choose|k: int|
        0 <= k < data.dialogs@.len() && #[trigger] data.dialogs@[k] == Dialog::Dialog(shown[i]);
    lemma_described_is_listed(shown[i].peer, data.chats@, data.users@);
    assert(data.dialogs@[k] == Dialog::Dialog(shown[i]));
}

proof fn lemma_shown_are_fewer(dialogs: Seq<Dialog>, chats: Seq<Chat>, users: Seq<User>)
    ensures
        shown_dialogs(dialogs, chats, users).len() <= dialogs.len(),
        forall|i: int|
            0 <= i < shown_dialogs(dialogs, chats, users).len() ==> {
                let d = #[trigger] shown_dialogs(dialogs, chats, users)[i];
                &&& is_described(d.peer, chats, users)
                &&& exists|k: int|
                    0 <= k < dialogs.len() && #[trigger] dialogs[k] == Dialog::Dialog(d)
            },
    decreases dialogs.len(),
{
    if dialogs.len() > 0 {
        let front = dialogs.drop_last();
        let before = shown_dialogs(front, chats, users);
        let shown = shown_dialogs(dialogs, chats, users);
        lemma_shown_are_fewer(front, chats, users);
        assert forall|i: int| 0 <= i < shown.len() implies ({
            let d = #[trigger] shown[i];
            &&& is_described(d.peer, chats, users)
            &&& exists|k: int| 0 <= k < dialogs.len() && #[trigger] dialogs[k] == Dialog::Dialog(d)
        }) by {
            let d = shown[i];
            if i < before.len() {
                assert(before[i] == d);
                let k = choose|k: int|
                    0 <= k < front.len() && #[trigger] front[k] == Dialog::Dialog(d);
                assert(dialogs[k] == Dialog::Dialog(d));
            } else {
                assert(dialogs[dialogs.len() - 1] == Dialog::Dialog(d));
            }
        }
    }
}

/// A row is titled as its user or chat is, with its access hash: by name for a user who has
/// one, and by its title for a group or channel.
pub proof fn lemma_row_is_titled(d: DialogData, data: DialogsData, now: i32, row: TelegramChat)
    requires
        row_matches(d, data, now, row),
    ensures
        match d.peer {
            Peer::User(id) => is_named_in(data.users@, id, row),
            Peer::Chat(id) => is_titled(data.chats@, id, row),
            Peer::Channel(id) => is_titled(data.chats@, id, row),
        },
{
    reveal_strlit("channel");
    reveal_strlit("group");
    assert("channel"@.len() != "group"@.len());
    match d.peer {
        Peer::User(id) => {
            lemma_last_user(data.users@, id);
            let u = last_user(data.users@, id)->0;
            let users = data.users@;
            let k = choose|k: int| 0 <= k < users.len() && #[trigger] users[k] == User::User(u);
            if u.first_name is Some {
                let first = u.first_name->0@;
                assert(row.title@.take(first.len() as int) =~= first);
            }
            assert(is_named(users[k], id, row));
        },
        Peer::Chat(id) => {
            lemma_last_chat(data.chats@, id);
        },
        Peer::Channel(id) => {
            lemma_last_chat(data.chats@, id);
        },
    }
}

/// A row is titled as the user with its number is called.
pub open spec fn is_named(user: User, id: i64, row: TelegramChat) -> bool {
    user matches User::User(u) && {
        &&& u.id == id
        &&& u.access_hash matches Some(h) ==> row.peer_hash == h
        &&& row.is_verified == u.verified
        &&& row.is_online == u.online
        &&& u.first_name matches Some(first) ==> {
            &&& first@.len() <= row.title@.len()
            &&& row.title@.take(first@.len() as int) == first@
            &&& match u.last_name {
                Some(last) => last@.len() > 0 ==> row.title@ == first@ + " "@ + last@,
                None => row.title@ == first@,
            }
        }
    }
}

/// A row is titled as one of the listed users.
pub open spec fn is_named_in(users: Seq<User>, id: i64, row: TelegramChat) -> bool {
    exists|i: int| 0 <= i < users.len() && is_named(#[trigger] users[i], id, row)
}

/// A row is titled as one of the listed chats.
pub open spec fn is_titled(chats: Seq<Chat>, id: i64, row: TelegramChat) -> bool {
    exists|i: int|
        0 <= i < chats.len() && match #[trigger] chats[i] {
            Chat::Chat(c) => c.id == id && row.title@ == c.title@ && row.chat_type@ == "group"@
                && row.peer_hash == 0,
            Chat::Channel(c) => c.id == id && row.title@ == c.title@ && (row.chat_type@
                == "channel"@ <==> c.broadcast) && (c.access_hash matches Some(h) ==> row.peer_hash
                == h) && row.is_verified == c.verified,
            Chat::Other => false,
        }
}

/// The message that a row shows is the last one of its chat in the reply.
pub proof fn lemma_last_message_is_shown(messages: Seq<Message>, peer: Peer, k: int)
    requires
        0 <= k < messages.len(),
        match messages[k] {
            Message::Message(m) => m.peer == peer,
            Message::Service { peer: p, .. } => p == peer,
            Message::Empty { .. } => false,
        },
        forall|i: int|
            k < i < messages.len() ==> match #[trigger] messages[i] {
                Message::Message(m) => m.peer != peer,
                Message::Service { peer: p, .. } => p != peer,
                Message::Empty { .. } => true,
            },
    ensures
        last_preview(messages, peer) matches Some((id, date, text)) && match messages[k] {
            Message::Message(m) => id == m.id && date == m.date && (!is_blank(m.text@) ==> text
                == m.text@),
            Message::Service { id: at, date: when, .. } => id == at && date == when && text.len()
                == 0,
            Message::Empty { .. } => true,
        },
    decreases messages.len(),
{
    if k < messages.len() - 1 {
        let front = messages.drop_last();
        assert(messages[messages.len() - 1] == messages.last());
        assert(preview_in(messages.last(), peer) is None);
        assert forall|i: int| k < i < front.len() implies match #[trigger] front[i] {
            Message::Message(m) => m.peer != peer,
            Message::Service { peer: p, .. } => p != peer,
            Message::Empty { .. } => true,
        } by {
            assert(front[i] == messages[i]);
        }
        lemma_last_message_is_shown(front, peer, k);
    }
}

/// A row shows the first eighty characters of a message, and all of a shorter one.
pub proof fn lemma_shown_text(text: Seq<char>)
    ensures
        shortened(text) is None <==> text.len() == 0,
        shortened(text) matches Some(t) ==> {
            &&& t.len() <= 80
            &&& t == text.take(t.len() as int)
            &&& t.len() < 80 ==> t == text
        },
{
    if 0 < text.len() <= PREVIEW_CHARS {
        assert(text.take(text.len() as int) =~= text);
    }
}

/// The photos of two runs of users or chats are those of the one and then those of the
/// other, and each owner with a photo has it remembered.
pub proof fn lemma_photos_add_up(
    a: Seq<User>,
    b: Seq<User>,
    c: Seq<Chat>,
    d: Seq<Chat>,
    u: UserData,
    chat: Chat,
)
    ensures
        user_photos(a + b) == user_photos(a) + user_photos(b),
        chat_photos(c + d) == chat_photos(c) + chat_photos(d),
        u.photo_id matches Some(p) ==> user_photos(seq![User::User(u)]) == seq![(u.id, p)],
        u.photo_id is None ==> user_photos(seq![User::User(u)]).len() == 0,
        chat matches Chat::Chat(x) ==> (x.photo_id matches Some(p) ==> chat_photos(seq![chat])
            == seq![(x.id, p)]),
        chat matches Chat::Channel(x) ==> (x.photo_id matches Some(p) ==> chat_photos(seq![chat])
            == seq![(x.id, p)]),
    decreases b.len() + d.len(),
{
    assert(seq![User::User(u)].drop_last() =~= Seq::<User>::empty());
    assert(seq![chat].drop_last() =~= Seq::<Chat>::empty());
    assert(user_photos(Seq::empty()) =~= Seq::<(i64, i64)>::empty());
    assert(chat_photos(Seq::empty()) =~= Seq::<(i64, i64)>::empty());
    assert(user_photos(seq![User::User(u)]) =~= user_photo(User::User(u)));
    assert(chat_photos(seq![chat]) =~= chat_photo(chat));
    if b.len() > 0 {
        lemma_photos_add_up(a, b.drop_last(), c, d, u, chat);
        assert((a + b).drop_last() =~= a + b.drop_last());
        assert(user_photos(a + b) =~= user_photos(a) + user_photos(b));
    } else if d.len() > 0 {
        lemma_photos_add_up(a, b, c, d.drop_last(), u, chat);
        assert((c + d).drop_last() =~= c + d.drop_last());
        assert(chat_photos(c + d) =~= chat_photos(c) + chat_photos(d));
    } else {
        assert(a + b =~= a);
        assert(c + d =~= c);
        assert(user_photos(a) + Seq::<(i64, i64)>::empty() =~= user_photos(a));
        assert(chat_photos(c) + Seq::<(i64, i64)>::empty() =~= chat_photos(c));
    }
}

/// The next page begins at the last message of the last dialog shown that has one, behind
/// the chat of the last row; a page that is not full is the last.
pub proof fn lemma_next_page_begins_behind_this(
    data: DialogsData,
    rows: Seq<TelegramChat>,
    limit: i32,
    offset: Option<ChatPageOffset>,
)
    requires
        offset_matches(data, rows, limit, offset),
        rows.len() <= i32::MAX,
        0 < limit,
    ensures
        offset is Some <==> rows.len() >= limit,
        offset matches Some(o) ==> o.peer_id == rows.last().id && o.peer_hash
            == rows.last().peer_hash && o.peer_type@ == rows.last().chat_type@,
        ({
            let shown = shown_dialogs(data.dialogs@, data.chats@, data.users@);
            &&& offset matches Some(o) ==> (o.id, o.date) == last_seen(shown, data.messages@)
            &&& offset is Some && shown.len() > 0 ==> (last_preview(
                data.messages@,
                shown.last().peer,
            ) matches Some((id, date, _)) ==> offset->0.id == id && offset->0.date == date)
        }),
{
}

/// A plain row has its own number and access hash and is otherwise blank.
pub proof fn lemma_plain_rows(row: TelegramChat, id: i64, access_hash: i64)
    requires
        plain_row(row, id, access_hash),
    ensures
        row.id == id,
        row.peer_hash == access_hash,
        row.last_message is None,
        row.unread_count == 0,
        !row.is_pinned && !row.is_muted,
{
}

/// A peer has its own number and is called by its kind.
pub proof fn lemma_peer_names(id: i64)
    ensures
        peer_number(Peer::User(id)) == id && peer_kind(Peer::User(id)) == "private"@,
        peer_number(Peer::Chat(id)) == id && peer_kind(Peer::Chat(id)) == "group"@,
        peer_number(Peer::Channel(id)) == id && peer_kind(Peer::Channel(id)) == "channel"@,
{
}

// ------------------------------------------------------------ all chats at once

/// How many chats are listed at once.
pub const MAX_DIALOGS: usize = 500;

/// Chats that are being listed, with their access hashes.
pub struct ChatListing {
    pub chats: Vec<TelegramChat>,
    pub peer_hashes: PeerTable,
}

/// A plain row of the list of chats.
pub open spec fn plain_row(row: TelegramChat, id: i64, access_hash: i64) -> bool {
    row == (TelegramChat {
        id,
        title: row.title,
        chat_type: row.chat_type,
        peer_hash: access_hash,
        last_message: None,
        last_message_date: None,
        unread_count: 0,
        is_muted: false,
        is_pinned: false,
        is_verified: false,
        is_online: false,
    })
}

impl ChatListing {
    /// The table holds the access hash of each chat listed, of the last one where an
    /// id occurs twice.
    pub open spec fn well_formed(self) -> bool {
        &&& self.chats@.len() <= MAX_DIALOGS
        &&& self.peer_hashes@ == with_pairs(Map::empty(), row_hashes(self.chats@))
    }

    /// Begins a list.
    pub fn new() -> (r: ChatListing)
        ensures
            r.well_formed(),
            r.chats@.len() == 0,
    {
        ChatListing { chats: Vec::new(), peer_hashes: PeerTable::new() }
    }

    /// Whether no more chats are listed.
    pub fn is_full(&self) -> (r: bool)
        ensures
            r == (self.chats@.len() >= MAX_DIALOGS),
            r <==> self.chats@.len() >= 500,
    {
        self.chats.len() >= MAX_DIALOGS
    }

    /// Adds a chat to a list that is not full. A chat without a name is "Unknown".
    pub fn push(&mut self, peer: &Peer, name: Option<&str>, access_hash: i64)
        requires
            old(self).well_formed(),
            old(self).chats@.len() < MAX_DIALOGS,
        ensures
            final(self).well_formed(),
            final(self).chats@.len() == old(self).chats@.len() + 1,
            final(self).chats@.drop_last() == old(self).chats@,
            plain_row(final(self).chats@.last(), peer_number(*peer), access_hash),
            final(self).chats@.last().title@ == (match name {
                Some(n) => n@,
                None => "Unknown"@,
            }),
            final(self).chats@.last().chat_type@ == peer_kind(*peer),
    {
        let (kind, id) = peer_kind_id(peer);
        let title = match name {
            Some(n) => n.to_owned(),
            None => "Unknown".to_owned(),
        };
        let _ = self.peer_hashes.put(id, access_hash);
        self.chats.push(
            TelegramChat {
                id,
                title,
                chat_type: kind,
                peer_hash: access_hash,
                last_message: None,
                last_message_date: None,
                unread_count: 0,
                is_muted: false,
                is_pinned: false,
                is_verified: false,
                is_online: false,
            },
        );
        proof {
            let rows = self.chats@;
            assert(rows.drop_last() =~= old(self).chats@);
            assert(row_hashes(rows).drop_last() =~= row_hashes(old(self).chats@));
        }
    }

    /// Ends a list: the access hashes found replace those known before.
    pub fn finish(self, session: &mut Session) -> (r: Vec<TelegramChat>)
        ensures
            r@ == self.chats@,
            final(session).peer_hashes == self.peer_hashes,
            final(session).authenticated == old(session).authenticated,
            final(session).peer_photo_ids == old(session).peer_photo_ids,
            final(session).takeout_session_id == old(session).takeout_session_id,
    {
        session.peer_hashes = self.peer_hashes;
        self.chats
    }
}

/// Begins to list all chats.
pub fn list_chats(session: &Session) -> (r: Result<ChatListing, ApiError>)
    ensures
        match r {
            Ok(listing) => session.authenticated && listing.well_formed() && listing.chats@.len()
                == 0,
            Err(e) => !session.authenticated && e == ApiError::NotAuthenticated,
        },
{
    if session.authenticated {
        Ok(ChatListing::new())
    } else {
        Err(ApiError::NotAuthenticated)
    }
}

/// What to do when the next chat could not be had.
pub enum ListFailure {
    /// Return the chats that were listed.
    Stop,
    /// Wait this many seconds, then try again.
    Sleep(u64),
    /// Report this.
    Fail(String),
}

/// The longest wait that is waited out while listing chats.
pub const MAX_LIST_WAIT_SECS: u64 = 60;

/// What a failure calls for when `loaded` chats were listed before it.
pub fn list_chats_failed(err: &str, loaded: usize) -> (r: ListFailure)
    ensures
        match flood_wait(err@) {
            Some(secs) => if secs > MAX_LIST_WAIT_SECS {
                r matches ListFailure::Fail(text) && text@ == "Telegram pediu pra esperar "@
                    + decimal(secs) + "s antes de listar chats de novo"@
            } else if loaded > 0 {
                r is Stop
            } else {
                r == ListFailure::Sleep((secs + 1) as u64)
            },
            None => r matches ListFailure::Fail(text) && text@ == err@,
        },
        flood_wait(err@) matches Some(secs) ==> (r is Fail <==> secs > 60) && (r is Stop <==> secs
            <= 60 && loaded > 0),
{
    match parse_flood_wait(err) {
        Some(secs) => if secs <= MAX_LIST_WAIT_SECS && loaded > 0 {
            ListFailure::Stop
        } else if secs <= MAX_LIST_WAIT_SECS {
            ListFailure::Sleep(secs + 1)
        } else {
            let number = decimal_text(secs);
            ListFailure::Fail(
                joined3(
                    "Telegram pediu pra esperar ",
                    number.as_str(),
                    "s antes de listar chats de novo",
                ),
            )
        },
        None => ListFailure::Fail(err.to_owned()),
    }
}

/// A row shows the last message of its chat and when it came, and nothing where the reply
/// has none.
pub proof fn lemma_row_shows_the_last_message(
    d: DialogData,
    data: DialogsData,
    now: i32,
    row: TelegramChat,
)
    requires
        row_matches(d, data, now, row),
    ensures
        match last_preview(data.messages@, d.peer) {
            Some((_, date, text)) => {
                &&& row.last_message_date == Some(date)
                &&& text.len() == 0 <==> row.last_message is None
                &&& row.last_message matches Some(t) ==> t@.len() <= 80 && t@ == text.take(
                    t@.len() as int,
                ) && (t@.len() < 80 ==> t@ == text)
            },
            None => row.last_message is None && row.last_message_date is None,
        },
{
    if let Some((_, _, text)) = last_preview(data.messages@, d.peer) {
        lemma_shown_text(text);
    }
}

/// A chat without messages in the reply shows none.
pub proof fn lemma_no_last_message(messages: Seq<Message>, peer: Peer)
    requires
        forall|i: int|
            0 <= i < messages.len() ==> match #[trigger] messages[i] {
                Message::Message(m) => m.peer != peer,
                Message::Service { peer: p, .. } => p != peer,
                Message::Empty { .. } => true,
            },
    ensures
        last_preview(messages, peer) is None,
    decreases messages.len(),
{
    if messages.len() > 0 {
        let front = messages.drop_last();
        assert(messages[messages.len() - 1] == messages.last());
        assert forall|i: int| 0 <= i < front.len() implies match #[trigger] front[i] {
            Message::Message(m) => m.peer != peer,
            Message::Service { peer: p, .. } => p != peer,
            Message::Empty { .. } => true,
        } by {
            assert(front[i] == messages[i]);
        }
        lemma_no_last_message(front, peer);
    }
}

/// The message from which the next page is asked for is that of the last dialog that has
/// one.
pub proof fn lemma_last_seen(dialogs: Seq<DialogData>, messages: Seq<Message>, k: int)
    requires
        0 <= k < dialogs.len(),
        last_preview(messages, dialogs[k].peer) is Some,
        forall|i: int|
            k < i < dialogs.len() ==> last_preview(messages, (#[trigger] dialogs[i]).peer) is None,
    ensures
        last_preview(messages, dialogs[k].peer) matches Some((id, date, _)) && last_seen(
            dialogs,
            messages,
        ) == (id, date),
    decreases dialogs.len(),
{
    if k < dialogs.len() - 1 {
        let front = dialogs.drop_last();
        assert(last_preview(messages, dialogs[dialogs.len() - 1].peer) is None);
        assert forall|i: int| k < i < front.len() implies last_preview(
            messages,
            (#[trigger] front[i]).peer,
        ) is None by {
            assert(front[i] == dialogs[i]);
        }
        lemma_last_seen(front, messages, k);
    }
}

/// Every reply with dialogs brings them, whether it holds all there are or a page.
pub proof fn lemma_replies_bring_their_dialogs(data: DialogsData)
    ensures
        reply_data(DialogsReply::All(data)) == Some(data),
        reply_data(DialogsReply::Slice(data)) == Some(data),
        reply_data(DialogsReply::NotModified) is None,
{
}

/// A private chat is titled by the first name, and by the last name where there is one that
/// is not empty, with one blank between the two; without a first name its id counts, whatever
/// the last name is.
pub proof fn lemma_titles_of_users(u: UserData, other: UserData)
    ensures
        u.first_name matches Some(f) ==> f@.is_prefix_of(user_title(u)) && (user_title(u) == f@
            <==> (u.last_name matches Some(l) ==> l@.len() == 0)),
        u.first_name matches Some(f) ==> (u.last_name matches Some(l) ==> (l@.len() > 0
            ==> user_title(u).len() == f@.len() + 1 + l@.len() && user_title(u)[f@.len() as int]
            == ' ' && user_title(u).skip(f@.len() + 1int) == l@)),
        u.first_name is None && other.first_name is None && u.id == other.id ==> user_title(u)
            == user_title(other),
        u.first_name is None ==> user_title(u).take(5) == "user_"@ && user_title(u).skip(5)
            == signed_decimal(u.id as int),
{
    reveal_strlit(" ");
    reveal_strlit("user_");
    let title = user_title(u);
    match (u.first_name, u.last_name) {
        (Some(f), Some(l)) => {
            if l@.len() > 0 {
                assert(title.len() == f@.len() + 1 + l@.len());
                assert(title.skip(f@.len() + 1int) =~= l@);
            }
            assert(f@ =~= title.subrange(0, f@.len() as int));
        },
        (Some(f), None) => {
            assert(f@ =~= title.subrange(0, f@.len() as int));
        },
        (None, _) => {
            assert(title.take(5) =~= "user_"@);
            assert(title.skip(5) =~= signed_decimal(u.id as int));
        },
    }
}

} // verus!
