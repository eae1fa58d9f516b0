//! The messages that were sent together as an album.

use vstd::prelude::*;

use super::list_media::GetHistory;
use super::media::{
    carries_media, has_item, item_matches, items_match, lemma_item_tells_of_its_message,
    lemma_listed_messages_add_up, lemma_listed_place, listed_messages, media_item, tells_of,
    TelegramMediaItem,
};
use super::models::{InputPeer, Message, MessageData, MessagesReply};
use super::requests::{peer_target, target, InputChannel};
use super::session::{ApiError, Session};
use crate::sort::{lemma_same_items, lemma_sorted_order, sort_descending, sorted, SortBy};

verus! {

/// The message that an album is expanded from, as it is asked for.
#[derive(Debug, Clone, Copy, PartialEq, Eq, Structural)]
pub struct AlbumStart {
    pub peer: InputPeer,
    /// The channel through which the message is asked for, where it is in one.
    pub channel: Option<InputChannel>,
    pub message_id: i32,
}

pub open spec fn album_start(peer: InputPeer, message_id: i32) -> AlbumStart {
    AlbumStart {
        peer,
        channel: match peer {
            InputPeer::Channel { channel_id, access_hash } => Some(
                InputChannel { channel_id, access_hash },
            ),
            _ => None,
        },
        message_id,
    }
}

/// The message to ask for first.
pub fn expand_album(session: &Session, chat_id: i64, chat_type: &str, message_id: i32) -> (r: Result<
    AlbumStart,
    ApiError,
>)
    ensures
        r == (if session.authenticated {
            Ok(album_start(target(*session, chat_id, chat_type@), message_id))
        } else {
            Err(ApiError::NotAuthenticated)
        }),
{
    let peer = peer_target(session, chat_id, chat_type)?;
    let channel = match peer {
        InputPeer::Channel { channel_id, access_hash } => Some(
            InputChannel { channel_id, access_hash },
        ),
        _ => None,
    };
    Ok(AlbumStart { peer, channel, message_id })
}

/// The first message of a reply. A list of channel messages counts only where a
/// channel was asked.
pub open spec fn first_of(reply: MessagesReply, in_channel: bool) -> Option<Message> {
    match reply {
        MessagesReply::Messages(m) => if m@.len() > 0 {
            Some(m@[0])
        } else {
            None
        },
        MessagesReply::Slice(m) => if m@.len() > 0 {
            Some(m@[0])
        } else {
            None
        },
        MessagesReply::ChannelMessages(m) => if in_channel && m@.len() > 0 {
            Some(m@[0])
        } else {
            None
        },
        MessagesReply::NotModified => None,
    }
}

fn front<'a>(messages: &'a Vec<Message>) -> (r: Option<&'a Message>)
    ensures
        r == (if messages@.len() > 0 {
            Some(&messages@[0])
        } else {
            None
        }),
{
    if messages.len() > 0 {
        Some(&messages[0])
    } else {
        None
    }
}

fn first_message<'a>(reply: &'a MessagesReply, in_channel: bool) -> (r: Option<&'a Message>)
    ensures
        match first_of(*reply, in_channel) {
            Some(m) => r == Some(&m),
            None => r is None,
        },
{
    match reply {
        MessagesReply::Messages(m) => front(m),
        MessagesReply::Slice(m) => front(m),
        MessagesReply::ChannelMessages(m) => if in_channel {
            front(m)
        } else {
            None
        },
        MessagesReply::NotModified => None,
    }
}

/// How far behind the message the history is read from, and how much of it: an
/// album has at most ten messages.
pub const ALBUM_REACH: i32 = 11;

pub const ALBUM_HISTORY_LIMIT: i32 = 22;

/// What the first message leads to.
pub enum AlbumStep {
    /// It is in no album: these are the items.
    Done(Vec<TelegramMediaItem>),
    /// It is in this album: read the history around it.
    Siblings { grouped_id: i64 },
}

/// The album that a message is in.
pub open spec fn album_of(m: Option<Message>) -> Option<i64> {
    match m {
        Some(Message::Message(d)) => d.grouped_id,
        _ => None,
    }
}

/// The message itself, where it has something to list.
pub open spec fn alone(m: Option<Message>) -> Seq<MessageData> {
    match m {
        Some(Message::Message(d)) => if has_item(d) {
            seq![d]
        } else {
            Seq::empty()
        },
        _ => Seq::empty(),
    }
}

/// Decides on the first message: whether it is in an album.
pub fn after_album_message(start: &AlbumStart, reply: &MessagesReply, fix_extensions: bool) -> (r:
    AlbumStep)
    ensures
        ({
            let first = first_of(*reply, start.channel is Some);
            match album_of(first) {
                Some(grouped_id) => r == (AlbumStep::Siblings { grouped_id }),
                None => r matches AlbumStep::Done(items) && items_match(
                    alone(first),
                    fix_extensions,
                    items@,
                ),
            }
        }),
{
    let mut items: Vec<TelegramMediaItem> = Vec::new();
    if let Some(Message::Message(m)) = first_message(reply, start.channel.is_some()) {
        if let Some(grouped_id) = m.grouped_id {
            return AlbumStep::Siblings { grouped_id };
        }
        if let Some(item) = media_item(m, fix_extensions) {
            items.push(item);
        }
    }
    AlbumStep::Done(items)
}

/// The history around a message that is in an album.
pub fn album_history(start: &AlbumStart) -> (r: GetHistory)
    requires
        start.message_id <= i32::MAX - ALBUM_REACH,
    ensures
        r == (GetHistory {
            peer: start.peer,
            offset_id: (start.message_id + ALBUM_REACH) as i32,
            limit: ALBUM_HISTORY_LIMIT,
        }),
        r.offset_id == start.message_id + 11,
        r.limit == 22,
{
    GetHistory {
        peer: start.peer,
        offset_id: start.message_id + ALBUM_REACH,
        limit: ALBUM_HISTORY_LIMIT,
    }
}

/// Smallest message number first.
pub struct ByMessageId;

impl SortBy<TelegramMediaItem> for ByMessageId {
    open spec fn key(x: &TelegramMediaItem) -> int {
        -(x.message_id as int)
    }

    fn key_of(x: &TelegramMediaItem) -> (r: i128) {
        -(x.message_id as i128)
    }
}

/// The messages of an album that have something to list, in their order.
pub open spec fn album_messages(messages: Seq<Message>, grouped_id: i64) -> Seq<MessageData> {
    listed_messages(messages).filter(|m: MessageData| m.grouped_id == Some(grouped_id))
}

/// `r` shows the messages of an album, smallest number first.
pub open spec fn album_matches(
    messages: Seq<Message>,
    grouped_id: i64,
    fix_extensions: bool,
    r: Seq<TelegramMediaItem>,
) -> bool {
    exists|found: Seq<TelegramMediaItem>| #[trigger]
        items_match(album_messages(messages, grouped_id), fix_extensions, found) && r == sorted::<
            TelegramMediaItem,
            ByMessageId,
        >(found)
}

/// Lists the messages of an album that a piece of history holds.
pub fn album_items(messages: &Vec<Message>, grouped_id: i64, fix_extensions: bool) -> (r: Vec<
    TelegramMediaItem,
>)
    ensures
        album_matches(messages@, grouped_id, fix_extensions, r@),
{
    let mut items: Vec<TelegramMediaItem> = Vec::new();
    let mut i: usize = 0;
    while i < messages.len()
        invariant
            i <= messages@.len(),
            items_match(
                album_messages(messages@.take(i as int), grouped_id),
                fix_extensions,
                items@,
            ),
        decreases messages@.len() - i,
    {
        proof {
            reveal(Seq::filter);
            assert(messages@.take(i + 1).drop_last() =~= messages@.take(i as int));
        }
        if let Message::Message(m) = &messages[i] {
            let same = match m.grouped_id {
                Some(g) => g == grouped_id,
                None => false,
            };
            if let Some(item) = media_item(m, fix_extensions) {
                proof {
                    let before = listed_messages(messages@.take(i as int));
                    assert(before.push(*m).drop_last() =~= before);
                }
                if same {
                    items.push(item);
                }
            }
        }
        i = i + 1;
    }
    proof {
        assert(messages@.take(i as int) =~= messages@);
    }
    let found = items;
    sort_descending::<TelegramMediaItem, ByMessageId>(found)
}

/// An album is shown in the order of its message numbers, and each item belongs to
/// it.
pub proof fn lemma_album_is_ordered(
    messages: Seq<Message>,
    grouped_id: i64,
    fix_extensions: bool,
    r: Seq<TelegramMediaItem>,
)
    requires
        album_matches(messages, grouped_id, fix_extensions, r),
    ensures
        r.len() == album_messages(messages, grouped_id).len(),
        forall|i: int, j: int|
            0 <= i < j < r.len() ==> (#[trigger] r[i]).message_id <= (#[trigger] r[j]).message_id,
        forall|i: int| 0 <= i < r.len() ==> (#[trigger] r[i]).grouped_id == Some(grouped_id),
{
    let msgs = album_messages(messages, grouped_id);
    let found = choose|found: Seq<TelegramMediaItem>| #[trigger]
        items_match(msgs, fix_extensions, found) && r == sorted::<TelegramMediaItem, ByMessageId>(
            found,
        );
    crate::sort::lemma_sorted_is_stable_sort::<TelegramMediaItem, ByMessageId>(found);
    assert(r.len() == found.len()) by {
        broadcast use vstd::seq_lib::group_to_multiset_ensures;

        assert(r.to_multiset().len() == found.to_multiset().len());
    }
    assert forall|i: int, j: int| 0 <= i < j < r.len() implies (#[trigger] r[i]).message_id <= (
    #[trigger] r[j]).message_id by {
        assert(ByMessageId::key(&r[i]) >= ByMessageId::key(&r[j]));
    }
    assert forall|i: int| 0 <= i < r.len() implies (#[trigger] r[i]).grouped_id == Some(
        grouped_id,
    ) by {
        broadcast use vstd::seq_lib::group_to_multiset_ensures;

        assert(r.contains(r[i]));
        assert(r.to_multiset().count(r[i]) > 0);
        assert(found.to_multiset().count(r[i]) > 0);
        assert(found.contains(r[i]));
        let k = choose|k: int| 0 <= k < found.len() && found[k] == r[i];
        assert(item_matches(msgs[k], fix_extensions, found[k]));
        let p = |m: MessageData| m.grouped_id == Some(grouped_id);
        assert(p(msgs[k])) by {
            broadcast use vstd::seq_lib::group_filter_ensures;

        }
    }
}

/// Every message of a reply that carries media and is in the album is shown.
pub proof fn lemma_album_is_complete(
    messages: Seq<Message>,
    grouped_id: i64,
    fix_extensions: bool,
    r: Seq<TelegramMediaItem>,
    k: int,
)
    requires
        album_matches(messages, grouped_id, fix_extensions, r),
        0 <= k < messages.len(),
        messages[k] matches Message::Message(m) && carries_media(m) && m.grouped_id == Some(
            grouped_id,
        ),
    ensures
        exists|i: int|
            0 <= i < r.len() && tells_of(#[trigger] r[i], messages[k]->Message_0),
{
    broadcast use vstd::seq_lib::group_filter_ensures;

    let d = messages[k]->Message_0;
    let listed = listed_messages(messages);
    let msgs = album_messages(messages, grouped_id);
    let p = |m: MessageData| m.grouped_id == Some(grouped_id);
    lemma_listed_place(messages, k);
    let at = listed_messages(messages.take(k)).len() as int;
    assert(listed[at] == d && p(d));
    assert(msgs.contains(d));
    let f = choose|f: int| 0 <= f < msgs.len() && msgs[f] == d;
    let found = choose|found: Seq<TelegramMediaItem>| #[trigger]
        items_match(msgs, fix_extensions, found) && r == sorted::<TelegramMediaItem, ByMessageId>(
            found,
        );
    assert(item_matches(msgs[f], fix_extensions, found[f]));
    lemma_item_tells_of_its_message(d, fix_extensions, found[f]);
    lemma_sorted_order::<TelegramMediaItem, ByMessageId>(found);
    assert(found.contains(found[f]));
    lemma_same_items(found, r, found[f]);
    let i = choose|i: int| 0 <= i < r.len() && r[i] == found[f];
    assert(tells_of(r[i], d));
}

/// A message that is in no album is shown alone, if it carries media; one that is in an
/// album leads to it.
pub proof fn lemma_message_alone(d: MessageData)
    ensures
        album_of(Some(Message::Message(d))) == d.grouped_id,
        carries_media(d) ==> alone(Some(Message::Message(d))) == seq![d],
        !carries_media(d) ==> alone(Some(Message::Message(d))).len() == 0,
{
    lemma_listed_messages_add_up(Seq::empty(), Seq::empty(), Message::Message(d));
    assert(has_item(d) == carries_media(d));
}

/// The message that was asked for is the first of the reply.
pub proof fn lemma_first_of_a_reply(messages: Vec<Message>, in_channel: bool)
    requires
        messages@.len() > 0,
    ensures
        first_of(MessagesReply::Messages(messages), in_channel) == Some(messages@[0]),
        first_of(MessagesReply::Slice(messages), in_channel) == Some(messages@[0]),
        first_of(MessagesReply::ChannelMessages(messages), true) == Some(messages@[0]),
{
}

/// A message of a channel is asked for through its channel, and any other without one.
pub proof fn lemma_album_is_asked_for(peer: InputPeer, message_id: i32)
    ensures
        ({
            let start = album_start(peer, message_id);
            &&& start.peer == peer
            &&& start.message_id == message_id
            &&& start.channel is Some <==> peer is Channel
            &&& peer matches InputPeer::Channel { channel_id, access_hash } ==> (
            start.channel matches Some(c) && c.channel_id == channel_id && c.access_hash
                == access_hash)
        }),
{
}

/// A reply without messages has no first one.
pub proof fn lemma_empty_reply(messages: Vec<Message>, in_channel: bool)
    requires
        messages@.len() == 0,
    ensures
        first_of(MessagesReply::Messages(messages), in_channel) is None,
        first_of(MessagesReply::Slice(messages), in_channel) is None,
        first_of(MessagesReply::ChannelMessages(messages), in_channel) is None,
        first_of(MessagesReply::NotModified, in_channel) is None,
{
}

} // verus!
