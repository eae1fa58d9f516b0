//! The requests that need no more than a peer: what is asked of the service, and
//! what is read out of its reply.

use vstd::prelude::*;

use super::models::{Chat, InputPeer, UserData};
use super::session::{put_all, with_pairs, ApiError, Session};
use crate::text::{copy_opt, joined, opt_text, same_text, trim_text, trimmed};

verus! {

/// A chat as it is shown in the list of chats.
#[derive(Debug, Clone)]
pub struct TelegramChat {
    pub id: i64,
    pub title: String,
    pub chat_type: String,
    pub peer_hash: i64,
    pub last_message: Option<String>,
    pub last_message_date: Option<i32>,
    pub unread_count: i32,
    pub is_muted: bool,
    pub is_pinned: bool,
    pub is_verified: bool,
    pub is_online: bool,
}

/// The account itself.
#[derive(Debug, Clone)]
pub struct TelegramSelf {
    pub user_id: i64,
    pub username: Option<String>,
    pub first_name: String,
    pub last_name: Option<String>,
    pub phone: Option<String>,
}

/// A channel as a request names it.
#[derive(Debug, Clone, Copy, PartialEq, Eq, Structural)]
pub struct InputChannel {
    pub channel_id: i64,
    pub access_hash: i64,
}

// ------------------------------------------------------------ naming a peer

pub open spec fn input_peer(chat_id: i64, chat_type: Seq<char>, access_hash: i64) -> InputPeer {
    if chat_type == "private"@ {
        InputPeer::User { user_id: chat_id, access_hash }
    } else if chat_type == "channel"@ || (chat_type == "group"@ && access_hash != 0) {
        InputPeer::Channel { channel_id: chat_id, access_hash }
    } else if chat_type == "group"@ {
        InputPeer::Chat { chat_id }
    } else {
        InputPeer::Empty
    }
}

/// Names a peer. A group with an access hash is a supergroup, so it is named as a
/// channel is.
pub fn make_input_peer(chat_id: i64, chat_type: &str, access_hash: i64) -> (r: InputPeer)
    ensures
        r == input_peer(chat_id, chat_type@, access_hash),
{
    proof {
        reveal_strlit("private");
        reveal_strlit("group");
        reveal_strlit("channel");
        assert("private"@.len() != "group"@.len());
        assert("private"@[0] != "channel"@[0]);
        assert("group"@.len() != "channel"@.len());
    }
    if same_text(chat_type, "private") {
        InputPeer::User { user_id: chat_id, access_hash }
    } else if same_text(chat_type, "group") {
        if access_hash != 0 {
            InputPeer::Channel { channel_id: chat_id, access_hash }
        } else {
            InputPeer::Chat { chat_id }
        }
    } else if same_text(chat_type, "channel") {
        InputPeer::Channel { channel_id: chat_id, access_hash }
    } else {
        InputPeer::Empty
    }
}

/// The peer that a request about a chat names.
pub open spec fn target(session: Session, chat_id: i64, chat_type: Seq<char>) -> InputPeer {
    input_peer(chat_id, chat_type, session.hash(chat_id))
}

pub open spec fn channel_of(session: Session, chat_id: i64) -> InputChannel {
    InputChannel { channel_id: chat_id, access_hash: session.hash(chat_id) }
}

/// The peer that a request about a chat names, once signed in.
pub fn peer_target(session: &Session, chat_id: i64, chat_type: &str) -> (r: Result<
    InputPeer,
    ApiError,
>)
    ensures
        r == (if session.authenticated {
            Ok(target(*session, chat_id, chat_type@))
        } else {
            Err(ApiError::NotAuthenticated)
        }),
{
    if !session.authenticated {
        return Err(ApiError::NotAuthenticated);
    }
    let access_hash = session.peer_hashes.get_or_zero(chat_id);
    Ok(make_input_peer(chat_id, chat_type, access_hash))
}

/// The channel that a request about a chat names, once signed in.
pub fn channel_target(session: &Session, chat_id: i64) -> (r: Result<InputChannel, ApiError>)
    ensures
        r == (if session.authenticated {
            Ok(channel_of(*session, chat_id))
        } else {
            Err(ApiError::NotAuthenticated)
        }),
{
    if !session.authenticated {
        return Err(ApiError::NotAuthenticated);
    }
    let access_hash = session.peer_hashes.get_or_zero(chat_id);
    Ok(InputChannel { channel_id: chat_id, access_hash })
}

// ------------------------------------------------------------ channels

/// The channel to delete.
pub fn delete_channel(session: &Session, chat_id: i64) -> (r: Result<InputChannel, ApiError>)
    ensures
        r == (if session.authenticated {
            Ok(channel_of(*session, chat_id))
        } else {
            Err(ApiError::NotAuthenticated)
        }),
{
    channel_target(session, chat_id)
}

/// A way out of a chat.
#[derive(Debug, Clone, Copy, PartialEq, Eq, Structural)]
pub enum LeaveRequest {
    Channel(InputChannel),
    /// Remove oneself from a basic group, keeping its history.
    Group { chat_id: i64, revoke_history: bool },
}

/// How to leave a chat: only channels and groups can be left.
pub fn leave_channel(session: &Session, chat_id: i64, chat_type: &str) -> (r: Result<
    LeaveRequest,
    ApiError,
>)
    ensures
        !session.authenticated ==> r == Err::<LeaveRequest, _>(ApiError::NotAuthenticated),
        session.authenticated && chat_type@ == "channel"@ ==> r == Ok::<_, ApiError>(
            LeaveRequest::Channel(channel_of(*session, chat_id)),
        ),
        session.authenticated && chat_type@ == "group"@ ==> r == Ok::<_, ApiError>(
            LeaveRequest::Group { chat_id, revoke_history: false },
        ),
        session.authenticated && chat_type@ != "channel"@ && chat_type@ != "group"@ ==> (r matches Err(
            ApiError::CannotLeave { chat_type: t },
        ) && t@ == chat_type@),
{
    proof {
        reveal_strlit("group");
        reveal_strlit("channel");
        assert("group"@.len() != "channel"@.len());
    }
    let channel = channel_target(session, chat_id)?;
    if same_text(chat_type, "channel") {
        Ok(LeaveRequest::Channel(channel))
    } else if same_text(chat_type, "group") {
        Ok(LeaveRequest::Group { chat_id, revoke_history: false })
    } else {
        Err(ApiError::CannotLeave { chat_type: chat_type.to_owned() })
    }
}

/// A new title for a channel.
#[derive(Debug)]
pub struct EditTitle {
    pub channel: InputChannel,
    pub title: String,
}

pub fn rename_channel(session: &Session, chat_id: i64, new_title: String) -> (r: Result<
    EditTitle,
    ApiError,
>)
    ensures
        r == (if session.authenticated {
            Ok(EditTitle { channel: channel_of(*session, chat_id), title: new_title })
        } else {
            Err(ApiError::NotAuthenticated)
        }),
{
    let channel = channel_target(session, chat_id)?;
    Ok(EditTitle { channel, title: new_title })
}

/// A channel to create.
#[derive(Debug)]
pub struct CreateChannel {
    pub broadcast: bool,
    pub megagroup: bool,
    pub title: String,
    pub about: String,
}

/// The title of a channel that stands for a folder.
pub open spec fn folder_title(name: Seq<char>) -> Seq<char> {
    trimmed(name) + " [og]"@
}

/// The broadcast channel that stands for a folder of this name.
pub fn create_folder_channel(session: &Session, name: &str) -> (r: Result<CreateChannel, ApiError>)
    ensures
        match r {
            Ok(c) => {
                &&& session.authenticated
                &&& c.broadcast
                &&& !c.megagroup
                &&& c.title@ == folder_title(name@)
                &&& c.about@ == "OmniGet Drive Folder\n[omniget-drive-folder]"@
            },
            Err(e) => !session.authenticated && e == ApiError::NotAuthenticated,
        },
{
    if !session.authenticated {
        return Err(ApiError::NotAuthenticated);
    }
    let trimmed_name = trim_text(name);
    Ok(
        CreateChannel {
            broadcast: true,
            megagroup: false,
            title: joined(trimmed_name.as_str(), " [og]"),
            about: "OmniGet Drive Folder\n[omniget-drive-folder]".to_owned(),
        },
    )
}

/// The first channel of a reply, with its access hash.
pub open spec fn first_channel(chats: Seq<Chat>) -> Option<(i64, i64)>
    decreases chats.len(),
{
    if chats.len() == 0 {
        None
    } else {
        match chats[0] {
            Chat::Channel(c) => Some(
                (
                    c.id,
                    match c.access_hash {
                        Some(h) => h,
                        None => 0,
                    },
                ),
            ),
            _ => first_channel(chats.drop_first()),
        }
    }
}

fn extract_channel_from_chats(chats: &Vec<Chat>) -> (r: Option<(i64, i64)>)
    ensures
        r == first_channel(chats@),
{
    let mut i: usize = 0;
    proof {
        assert(chats@.skip(0) =~= chats@);
    }
    while i < chats.len()
        invariant
            i <= chats@.len(),
            first_channel(chats@) == first_channel(chats@.skip(i as int)),
        decreases chats@.len() - i,
    {
        proof {
            assert(chats@.skip(i as int).drop_first() =~= chats@.skip(i + 1));
        }
        if let Chat::Channel(c) = &chats[i] {
            let access_hash: i64 = match c.access_hash {
                Some(h) => h,
                None => 0,
            };
            return Some((c.id, access_hash));
        }
        i = i + 1;
    }
    None
}

/// The id and access hash of the first channel of a reply.
pub fn extract_channel_from_chats_pub(chats: &Vec<Chat>) -> (r: Option<(i64, i64)>)
    ensures
        r == first_channel(chats@),
{
    extract_channel_from_chats(chats)
}

/// Remembers the channel that was created and shows it as a chat.
pub fn created_channel(session: &mut Session, chats: &Vec<Chat>, title: String) -> (r: Result<
    TelegramChat,
    ApiError,
>)
    ensures
        match first_channel(chats@) {
            None => {
                &&& r == Err::<TelegramChat, _>(ApiError::NoChannelInReply)
                &&& *final(session) == *old(session)
            },
            Some((id, hash)) => {
                &&& r matches Ok(chat) && chat.chat_type@ == "channel"@ && chat == (TelegramChat {
                    id,
                    title,
                    chat_type: chat.chat_type,
                    peer_hash: hash,
                    last_message: None,
                    last_message_date: None,
                    unread_count: 0,
                    is_muted: false,
                    is_pinned: false,
                    is_verified: false,
                    is_online: false,
                })
                &&& final(session).peer_hashes@ == old(session).peer_hashes@.insert(id, hash)
                &&& final(session).authenticated == old(session).authenticated
                &&& final(session).peer_photo_ids == old(session).peer_photo_ids
                &&& final(session).takeout_session_id == old(session).takeout_session_id
            },
        },
{
    let (channel_id, access_hash) = match extract_channel_from_chats(chats) {
        Some(found) => found,
        None => return Err(ApiError::NoChannelInReply),
    };
    let _ = session.peer_hashes.put(channel_id, access_hash);
    Ok(
        TelegramChat {
            id: channel_id,
            title,
            chat_type: "channel".to_owned(),
            peer_hash: access_hash,
            last_message: None,
            last_message_date: None,
            unread_count: 0,
            is_muted: false,
            is_pinned: false,
            is_verified: false,
            is_online: false,
        },
    )
}

// ------------------------------------------------------------ messages

/// A history to delete.
#[derive(Debug, Clone, Copy, PartialEq, Eq, Structural)]
pub struct DeleteHistory {
    pub peer: InputPeer,
    pub just_clear: bool,
    pub revoke: bool,
    /// 0: without a bound.
    pub max_id: i32,
}

pub fn delete_history(
    session: &Session,
    chat_id: i64,
    chat_type: &str,
    just_clear: bool,
    revoke: bool,
) -> (r: Result<DeleteHistory, ApiError>)
    ensures
        r == (if session.authenticated {
            Ok(
                DeleteHistory {
                    peer: target(*session, chat_id, chat_type@),
                    just_clear,
                    revoke,
                    max_id: 0,
                },
            )
        } else {
            Err(ApiError::NotAuthenticated)
        }),
{
    let peer = peer_target(session, chat_id, chat_type)?;
    Ok(DeleteHistory { peer, just_clear, revoke, max_id: 0 })
}

/// Messages to delete. Nothing is asked of the service for an empty list.
#[derive(Debug)]
pub enum DeleteMessages {
    Nothing,
    InChannel { channel: InputChannel, ids: Vec<i32> },
    Elsewhere { revoke: bool, ids: Vec<i32> },
}

/// A chat whose messages are numbered on their own.
pub open spec fn is_channel_like(chat_type: Seq<char>, access_hash: i64) -> bool {
    chat_type == "channel"@ || (chat_type == "group"@ && access_hash != 0)
}

/// Whether a chat's messages are asked for through the channel requests.
pub fn channel_like(chat_type: &str, access_hash: i64) -> (r: bool)
    ensures
        r == is_channel_like(chat_type@, access_hash),
{
    same_text(chat_type, "channel") || (same_text(chat_type, "group") && access_hash != 0)
}

pub fn delete_messages(
    session: &Session,
    chat_id: i64,
    chat_type: &str,
    message_ids: Vec<i32>,
    revoke: bool,
) -> (r: Result<DeleteMessages, ApiError>)
    ensures
        r == (if message_ids@.len() == 0 {
            Ok(DeleteMessages::Nothing)
        } else if !session.authenticated {
            Err(ApiError::NotAuthenticated)
        } else if is_channel_like(chat_type@, session.hash(chat_id)) {
            Ok(
                DeleteMessages::InChannel {
                    channel: channel_of(*session, chat_id),
                    ids: message_ids,
                },
            )
        } else {
            Ok(DeleteMessages::Elsewhere { revoke, ids: message_ids })
        }),
{
    if message_ids.len() == 0 {
        return Ok(DeleteMessages::Nothing);
    }
    let channel = channel_target(session, chat_id)?;
    if channel_like(chat_type, channel.access_hash) {
        Ok(DeleteMessages::InChannel { channel, ids: message_ids })
    } else {
        Ok(DeleteMessages::Elsewhere { revoke, ids: message_ids })
    }
}

/// The count that a deletion reports, read as unsigned.
pub fn affected_count(pts: i32) -> (r: u32)
    ensures
        r == (if pts >= 0 {
            pts as int
        } else {
            pts + 0x1_0000_0000
        }),
{
    proof {
        assert(pts >= 0 ==> pts as u32 == pts) by (bit_vector);
        assert(pts < 0 ==> pts as u32 == pts + 0x1_0000_0000) by (bit_vector);
    }
    pts as u32
}

/// Messages to forward.
#[derive(Debug)]
pub struct ForwardMessages {
    pub from_peer: InputPeer,
    pub to_peer: InputPeer,
    pub ids: Vec<i32>,
    /// One number for each message, by which the service knows a repeated request.
    pub random_ids: Vec<i64>,
    pub drop_author: bool,
    pub drop_media_captions: bool,
}

/// `rand::random::<i64>`: any number.
#[verifier::external_body]
pub(crate) fn random_number() -> (r: i64) {
    rand::random::<i64>()
}

/// Draws `count` numbers.
pub fn random_numbers(count: usize) -> (r: Vec<i64>)
    ensures
        r@.len() == count,
{
    let mut out: Vec<i64> = Vec::new();
    while out.len() < count
        invariant
            out@.len() <= count,
        decreases count - out@.len(),
    {
        out.push(random_number());
    }
    out
}

/// The messages to forward; none for an empty list. The random numbers are any, one
/// for each message.
pub fn forward_messages(
    session: &Session,
    from_chat_id: i64,
    from_chat_type: &str,
    to_chat_id: i64,
    to_chat_type: &str,
    message_ids: Vec<i32>,
    drop_author: bool,
    drop_captions: bool,
) -> (r: Result<Option<ForwardMessages>, ApiError>)
    ensures
        message_ids@.len() == 0 ==> r == Ok::<Option<ForwardMessages>, ApiError>(None),
        message_ids@.len() > 0 && !session.authenticated ==> r == Err::<
            Option<ForwardMessages>,
            _,
        >(ApiError::NotAuthenticated),
        message_ids@.len() > 0 && session.authenticated ==> (r matches Ok(Some(f))
            && f.random_ids@.len() == message_ids@.len() && f == (ForwardMessages {
            from_peer: target(*session, from_chat_id, from_chat_type@),
            to_peer: target(*session, to_chat_id, to_chat_type@),
            ids: message_ids,
            random_ids: f.random_ids,
            drop_author,
            drop_media_captions: drop_captions,
        })),
{
    if message_ids.len() == 0 {
        return Ok(None);
    }
    let from_peer = peer_target(session, from_chat_id, from_chat_type)?;
    let to_peer = peer_target(session, to_chat_id, to_chat_type)?;
    let random_ids = random_numbers(message_ids.len());
    Ok(
        Some(
            ForwardMessages {
                from_peer,
                to_peer,
                ids: message_ids,
                random_ids,
                drop_author,
                drop_media_captions: drop_captions,
            },
        ),
    )
}

/// A new caption for a message.
#[derive(Debug)]
pub struct EditCaption {
    pub peer: InputPeer,
    pub id: i32,
    pub message: String,
}

pub fn edit_caption(
    session: &Session,
    chat_id: i64,
    chat_type: &str,
    message_id: i32,
    caption: String,
) -> (r: Result<EditCaption, ApiError>)
    ensures
        r == (if session.authenticated {
            Ok(
                EditCaption {
                    peer: target(*session, chat_id, chat_type@),
                    id: message_id,
                    message: caption,
                },
            )
        } else {
            Err(ApiError::NotAuthenticated)
        }),
{
    let peer = peer_target(session, chat_id, chat_type)?;
    Ok(EditCaption { peer, id: message_id, message: caption })
}

/// A file to send. An empty caption is none.
#[derive(Debug)]
pub struct UploadMedia {
    pub peer: InputPeer,
    pub caption: Option<String>,
}

pub fn upload_media(
    session: &Session,
    chat_id: i64,
    chat_type: &str,
    caption: Option<&str>,
) -> (r: Result<UploadMedia, ApiError>)
    ensures
        match r {
            Ok(u) => {
                &&& session.authenticated
                &&& u.peer == target(*session, chat_id, chat_type@)
                &&& match caption {
                    Some(c) if c@.len() > 0 => opt_text(u.caption) == Some(c@),
                    _ => u.caption is None,
                }
            },
            Err(e) => !session.authenticated && e == ApiError::NotAuthenticated,
        },
{
    let peer = peer_target(session, chat_id, chat_type)?;
    let kept = match caption {
        Some(c) => if c.unicode_len() > 0 {
            Some(c.to_owned())
        } else {
            None
        },
        None => None,
    };
    Ok(UploadMedia { peer, caption: kept })
}

// ------------------------------------------------------------ peers

/// A peer to block or to unblock.
pub fn set_blocked(session: &Session, chat_id: i64, chat_type: &str, blocked: bool) -> (r: Result<
    (InputPeer, bool),
    ApiError,
>)
    ensures
        r == (if session.authenticated {
            Ok((target(*session, chat_id, chat_type@), blocked))
        } else {
            Err(ApiError::NotAuthenticated)
        }),
{
    let peer = peer_target(session, chat_id, chat_type)?;
    Ok((peer, blocked))
}

/// A report on messages of a peer.
#[derive(Debug)]
pub struct Report {
    pub peer: InputPeer,
    pub ids: Vec<i32>,
    pub option: Vec<u8>,
    pub message: String,
}

pub fn report_peer(
    session: &Session,
    chat_id: i64,
    chat_type: &str,
    message_ids: Vec<i32>,
    option: Vec<u8>,
    message: String,
) -> (r: Result<Report, ApiError>)
    ensures
        r == (if session.authenticated {
            Ok(
                Report {
                    peer: target(*session, chat_id, chat_type@),
                    ids: message_ids,
                    option,
                    message,
                },
            )
        } else {
            Err(ApiError::NotAuthenticated)
        }),
{
    let peer = peer_target(session, chat_id, chat_type)?;
    Ok(Report { peer, ids: message_ids, option, message })
}

/// How long a peer is muted.
#[derive(Debug, Clone, Copy, PartialEq, Eq, Structural)]
pub struct Mute {
    pub peer: InputPeer,
    pub mute_until: i32,
}

/// A moment brought into the range that the service takes.
pub open spec fn clamped_moment(t: i64) -> i32 {
    if t < 0 {
        0
    } else if t > i32::MAX {
        i32::MAX
    } else {
        t as i32
    }
}

pub fn set_mute(session: &Session, chat_id: i64, chat_type: &str, mute_until: i64) -> (r: Result<
    Mute,
    ApiError,
>)
    ensures
        r == (if session.authenticated {
            Ok(
                Mute {
                    peer: target(*session, chat_id, chat_type@),
                    mute_until: clamped_moment(mute_until),
                },
            )
        } else {
            Err(ApiError::NotAuthenticated)
        }),
{
    let peer = peer_target(session, chat_id, chat_type)?;
    let clamped: i32 = if mute_until < 0 {
        0
    } else if mute_until > i32::MAX as i64 {
        i32::MAX
    } else {
        mute_until as i32
    };
    Ok(Mute { peer, mute_until: clamped })
}

/// A dialog to pin or to unpin.
pub fn toggle_pin(session: &Session, chat_id: i64, chat_type: &str, pinned: bool) -> (r: Result<
    (InputPeer, bool),
    ApiError,
>)
    ensures
        r == (if session.authenticated {
            Ok((target(*session, chat_id, chat_type@), pinned))
        } else {
            Err(ApiError::NotAuthenticated)
        }),
{
    let peer = peer_target(session, chat_id, chat_type)?;
    Ok((peer, pinned))
}

/// The folder that a dialog moves to: 1 holds the archived ones, 0 the others.
pub fn set_archived(session: &Session, chat_id: i64, chat_type: &str, archived: bool) -> (r: Result<
    (InputPeer, i32),
    ApiError,
>)
    ensures
        r == (if session.authenticated {
            Ok(
                (
                    target(*session, chat_id, chat_type@),
                    if archived {
                        1i32
                    } else {
                        0i32
                    },
                ),
            )
        } else {
            Err(ApiError::NotAuthenticated)
        }),
{
    let peer = peer_target(session, chat_id, chat_type)?;
    let folder_id: i32 = if archived {
        1
    } else {
        0
    };
    Ok((peer, folder_id))
}

/// The pinned dialogs in their new order.
pub fn reorder_pinned(session: &Session, items: &Vec<(i64, String)>) -> (r: Result<
    Vec<InputPeer>,
    ApiError,
>)
    ensures
        match r {
            Ok(order) => {
                &&& session.authenticated
                &&& order@ == items@.map_values(
                    |item: (i64, String)| target(*session, item.0, item.1@),
                )
            },
            Err(e) => !session.authenticated && e == ApiError::NotAuthenticated,
        },
{
    if !session.authenticated {
        return Err(ApiError::NotAuthenticated);
    }
    let mut order: Vec<InputPeer> = Vec::new();
    let mut i: usize = 0;
    while i < items.len()
        invariant
            i <= items@.len(),
            session.authenticated,
            order@ =~= items@.take(i as int).map_values(
                |item: (i64, String)| target(*session, item.0, item.1@),
            ),
        decreases items@.len() - i,
    {
        let (chat_id, chat_type) = &items[i];
        let peer = peer_target(session, *chat_id, chat_type.as_str())?;
        order.push(peer);
        i = i + 1;
    }
    proof {
        assert(items@.take(i as int) =~= items@);
    }
    Ok(order)
}

/// The pairs whose hash is not 0, in their order.
pub open spec fn known_pairs(items: Seq<(i64, i64)>) -> Seq<(i64, i64)> {
    items.filter(|p: (i64, i64)| p.1 != 0)
}

/// Brings back access hashes that were saved; 0 stands for none.
pub fn restore_peer_hashes(session: &mut Session, items: &Vec<(i64, i64)>)
    ensures
        final(session).peer_hashes@ == with_pairs(old(session).peer_hashes@, known_pairs(items@)),
        final(session).authenticated == old(session).authenticated,
        final(session).peer_photo_ids == old(session).peer_photo_ids,
        final(session).takeout_session_id == old(session).takeout_session_id,
{
    let mut known: Vec<(i64, i64)> = Vec::new();
    let mut i: usize = 0;
    let ghost keep = |p: (i64, i64)| p.1 != 0;
    while i < items.len()
        invariant
            i <= items@.len(),
            keep == (|p: (i64, i64)| p.1 != 0),
            known@ == items@.take(i as int).filter(keep),
        decreases items@.len() - i,
    {
        let (id, hash) = items[i];
        proof {
            reveal(Seq::filter);
            assert(items@.take(i + 1).drop_last() =~= items@.take(i as int));
        }
        if hash != 0 {
            known.push((id, hash));
        }
        i = i + 1;
    }
    proof {
        assert(items@.take(i as int) =~= items@);
    }
    put_all(&mut session.peer_hashes, &known);
}

/// What the service says of the account itself. An empty phone number is none.
pub fn get_self(me: &UserData) -> (r: TelegramSelf)
    ensures
        r.user_id == me.id,
        r.username == me.username,
        r.last_name == me.last_name,
        r.first_name@ == (match me.first_name {
            Some(n) => n@,
            None => Seq::empty(),
        }),
        match me.phone {
            Some(p) if p@.len() > 0 => r.phone == Some(p),
            _ => r.phone is None,
        },
{
    let phone = match &me.phone {
        Some(p) => if p.as_str().unicode_len() > 0 {
            Some(p.clone())
        } else {
            None
        },
        None => None,
    };
    let first_name = match &me.first_name {
        Some(n) => n.clone(),
        None => String::new(),
    };
    TelegramSelf {
        user_id: me.id,
        username: copy_opt(&me.username),
        first_name,
        last_name: copy_opt(&me.last_name),
        phone,
    }
}

// ------------------------------------------------------------ export sessions

/// What opening an export session takes.
#[derive(Debug, Clone, Copy, PartialEq, Eq, Structural)]
pub enum Takeout {
    /// One is open already.
    Open(i64),
    /// Ask for one that covers chats, megagroups, channels and files up to this size.
    Ask { file_max_size: i64 },
}

pub const TAKEOUT_FILE_MAX_SIZE: i64 = 1_500_000_000;

pub fn init_takeout(session: &Session) -> (r: Result<Takeout, ApiError>)
    ensures
        r == (if !session.authenticated {
            Err(ApiError::NotAuthenticated)
        } else {
            match session.takeout_session_id {
                Some(id) => Ok(Takeout::Open(id)),
                None => Ok(Takeout::Ask { file_max_size: TAKEOUT_FILE_MAX_SIZE }),
            }
        }),
        r matches Ok(Takeout::Ask { file_max_size }) ==> file_max_size == 1_500_000_000,
{
    if !session.authenticated {
        return Err(ApiError::NotAuthenticated);
    }
    match session.takeout_session_id {
        Some(id) => Ok(Takeout::Open(id)),
        None => Ok(Takeout::Ask { file_max_size: TAKEOUT_FILE_MAX_SIZE }),
    }
}

/// Whether there is an export session to close.
pub fn finish_takeout(session: &Session) -> (r: Result<bool, ApiError>)
    ensures
        r == (if session.authenticated {
            Ok(session.takeout_session_id is Some)
        } else {
            Err(ApiError::NotAuthenticated)
        }),
{
    if !session.authenticated {
        return Err(ApiError::NotAuthenticated);
    }
    Ok(session.takeout_session_id.is_some())
}

/// Records that an export session was opened, or that it was closed.
pub fn set_takeout(session: &mut Session, id: Option<i64>)
    ensures
        final(session).takeout_session_id == id,
        final(session).authenticated == old(session).authenticated,
        final(session).peer_hashes == old(session).peer_hashes,
        final(session).peer_photo_ids == old(session).peer_photo_ids,
{
    session.takeout_session_id = id;
}

// ------------------------------------------------------------ laws of requests

/// A chat is asked for by its own number: a private chat as a user, a channel as a channel,
/// and a group as a channel exactly where it has an access hash, else as a basic group.
pub proof fn lemma_peers(chat_id: i64, chat_type: Seq<char>, access_hash: i64)
    ensures
        match input_peer(chat_id, chat_type, access_hash) {
            InputPeer::User { user_id, access_hash: h } => chat_type == "private"@ && user_id
                == chat_id && h == access_hash,
            InputPeer::Channel { channel_id, access_hash: h } => channel_id == chat_id && h
                == access_hash && (chat_type == "channel"@ || chat_type == "group"@ && h != 0),
            InputPeer::Chat { chat_id: c } => c == chat_id && chat_type == "group"@ && access_hash
                == 0,
            InputPeer::Empty => chat_type != "private"@ && chat_type != "channel"@ && chat_type
                != "group"@,
        },
        is_channel_like(chat_type, access_hash) <==> input_peer(
            chat_id,
            chat_type,
            access_hash,
        ) is Channel,
{
    reveal_strlit("private");
    reveal_strlit("channel");
    reveal_strlit("group");
    assert("private"@[0] == 'p' && "channel"@[0] == 'c' && "group"@[0] == 'g');
}

/// A chat is asked for with the access hash that is known of it.
pub proof fn lemma_target_has_the_known_hash(session: Session, chat_id: i64, chat_type: Seq<char>)
    ensures
        ({
            let known = if session.peer_hashes@.contains_key(chat_id) {
                session.peer_hashes@[chat_id]
            } else {
                0
            };
            &&& target(session, chat_id, chat_type) == input_peer(chat_id, chat_type, known)
            &&& channel_of(session, chat_id) == (InputChannel {
                channel_id: chat_id,
                access_hash: known,
            })
        }),
{
}

/// The channel that a reply creates is the first channel that it lists, with its hash.
pub proof fn lemma_first_channel(chats: Seq<Chat>, k: int)
    requires
        0 <= k < chats.len(),
        chats[k] is Channel,
        forall|i: int| 0 <= i < k ==> !(#[trigger] chats[i] is Channel),
    ensures
        chats[k] matches Chat::Channel(c) && first_channel(chats) == Some(
            (
                c.id,
                match c.access_hash {
                    Some(h) => h,
                    None => 0,
                },
            ),
        ),
    decreases k,
{
    if k > 0 {
        let rest = chats.drop_first();
        assert(!(chats[0] is Channel));
        assert forall|i: int| 0 <= i < k - 1 implies !(#[trigger] rest[i] is Channel) by {
            assert(rest[i] == chats[i + 1]);
        }
        lemma_first_channel(rest, k - 1);
    }
}

/// A moment keeps its value as far as it fits, and else becomes the nearest that does.
pub proof fn lemma_clamped_moment(t: i64)
    ensures
        0 <= t <= i32::MAX ==> clamped_moment(t) == t,
        t < 0 ==> clamped_moment(t) == 0,
        t > i32::MAX ==> clamped_moment(t) == i32::MAX,
{
}

/// Exactly the pairs with a hash are known.
pub proof fn lemma_known_pairs(items: Seq<(i64, i64)>, p: (i64, i64))
    ensures
        known_pairs(items).contains(p) <==> items.contains(p) && p.1 != 0,
    decreases items.len(),
{
    reveal(Seq::filter);
    if items.len() > 0 {
        let t = items.drop_last();
        let last = items.last();
        let kept = known_pairs(items);
        let before = known_pairs(t);
        lemma_known_pairs(t, p);
        assert(items[items.len() - 1] == last);
        if t.contains(p) {
            let k = choose|k: int| 0 <= k < t.len() && t[k] == p;
            assert(items[k] == p);
        }
        if items.contains(p) && last != p {
            let k = choose|k: int| 0 <= k < items.len() && items[k] == p;
            assert(t[k] == p);
        }
        if last.1 != 0 {
            assert(kept == before.push(last));
            assert(kept[kept.len() - 1] == last);
            if before.contains(p) {
                let k = choose|k: int| 0 <= k < before.len() && before[k] == p;
                assert(kept[k] == p);
            }
            if kept.contains(p) && p != last {
                let k = choose|k: int| 0 <= k < kept.len() && kept[k] == p;
                assert(before[k] == p);
            }
        } else {
            assert(kept == before);
        }
    }
}

/// The title of a folder is its name without the blanks around it, and a mark behind it.
pub proof fn lemma_folder_title(name: Seq<char>)
    ensures
        folder_title(name).len() == trimmed(name).len() + 5,
        folder_title(name).take(trimmed(name).len() as int) == trimmed(name),
        folder_title(name).skip(trimmed(name).len() as int) == " [og]"@,
{
    reveal_strlit(" [og]");
    assert(folder_title(name).take(trimmed(name).len() as int) =~= trimmed(name));
    assert(folder_title(name).skip(trimmed(name).len() as int) =~= " [og]"@);
}

} // verus!
