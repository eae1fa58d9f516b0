//! Members of channels, and what a channel says of itself.

use vstd::prelude::*;

use super::lookup::{find_user, last_user};
use super::models::{Chat, Peer, User};
use super::requests::{channel_of, channel_target, InputChannel};
use super::session::{ApiError, Session};
use crate::text::{copy_opt, copy_or_empty, opt_text, or_empty, same_text};

verus! {

/// A member of a channel.
#[derive(Debug, Clone)]
pub struct TelegramParticipant {
    pub user_id: i64,
    pub first_name: String,
    pub last_name: String,
    pub username: Option<String>,
    pub is_bot: bool,
    pub role: String,
    pub joined_at: Option<i32>,
}

#[derive(Debug)]
pub struct TelegramParticipantsPage {
    pub count: i32,
    pub users: Vec<TelegramParticipant>,
}

/// Which members are asked for.
#[derive(Debug)]
pub enum ParticipantsFilter {
    Recent,
    Admins,
    Bots,
    Kicked { q: String },
    Banned { q: String },
    Search { q: String },
}

/// A page of members to ask for.
#[derive(Debug)]
pub struct GetParticipants {
    pub channel: InputChannel,
    pub filter: ParticipantsFilter,
    pub offset: i32,
    pub limit: i32,
}

/// `r` asks for the members that a filter's name and a query stand for.
pub open spec fn filter_matches(name: Seq<char>, query: Seq<char>, r: ParticipantsFilter) -> bool {
    if name == "admins"@ {
        r is Admins
    } else if name == "bots"@ {
        r is Bots
    } else if name == "banned"@ {
        r matches ParticipantsFilter::Kicked { q } && q@ == query
    } else if name == "restricted"@ {
        r matches ParticipantsFilter::Banned { q } && q@ == query
    } else if name == "search"@ {
        r matches ParticipantsFilter::Search { q } && q@ == query
    } else {
        r is Recent
    }
}

fn participants_filter(name: &str, query: String) -> (r: ParticipantsFilter)
    ensures
        filter_matches(name@, query@, r),
{
    if same_text(name, "admins") {
        ParticipantsFilter::Admins
    } else if same_text(name, "bots") {
        ParticipantsFilter::Bots
    } else if same_text(name, "banned") {
        ParticipantsFilter::Kicked { q: query }
    } else if same_text(name, "restricted") {
        ParticipantsFilter::Banned { q: query }
    } else if same_text(name, "search") {
        ParticipantsFilter::Search { q: query }
    } else {
        ParticipantsFilter::Recent
    }
}

/// The page of members to ask for. Without a query the empty one is used.
pub fn list_participants(
    session: &Session,
    chat_id: i64,
    filter: &str,
    offset: i32,
    limit: i32,
    search: Option<String>,
) -> (r: Result<GetParticipants, ApiError>)
    ensures
        match r {
            Ok(g) => {
                &&& session.authenticated
                &&& g.channel == channel_of(*session, chat_id)
                &&& filter_matches(filter@, or_empty(opt_text(search)), g.filter)
                &&& g.offset == offset
                &&& g.limit == limit
            },
            Err(e) => !session.authenticated && e == ApiError::NotAuthenticated,
        },
{
    let channel = channel_target(session, chat_id)?;
    let query = match search {
        Some(q) => q,
        None => String::new(),
    };
    Ok(GetParticipants { channel, filter: participants_filter(filter, query), offset, limit })
}

/// A member as the service describes it.
#[derive(Debug, Clone, Copy)]
pub enum ChannelParticipant {
    Creator { user_id: i64 },
    Admin { user_id: i64, date: i32 },
    Member { user_id: i64, date: i32 },
    Banned { peer: Peer, date: i32 },
    Left { peer: Peer },
    Oneself { user_id: i64, date: i32 },
}

/// The user that a peer is, or 0.
pub open spec fn user_of(peer: Peer) -> i64 {
    match peer {
        Peer::User(id) => id,
        _ => 0,
    }
}

/// A member's user, role and the time of joining.
pub open spec fn role_of(p: ChannelParticipant) -> (i64, Seq<char>, Option<i32>) {
    match p {
        ChannelParticipant::Creator { user_id } => (user_id, "creator"@, None),
        ChannelParticipant::Admin { user_id, date } => (user_id, "admin"@, Some(date)),
        ChannelParticipant::Member { user_id, date } => (user_id, "member"@, Some(date)),
        ChannelParticipant::Banned { peer, date } => (user_of(peer), "banned"@, Some(date)),
        ChannelParticipant::Left { peer } => (user_of(peer), "left"@, None),
        ChannelParticipant::Oneself { user_id, date } => (user_id, "self"@, Some(date)),
    }
}

/// `r` shows a member, with what the reply's users say of it.
pub open spec fn participant_matches(
    p: ChannelParticipant,
    users: Seq<User>,
    r: TelegramParticipant,
) -> bool {
    let (user_id, role, joined_at) = role_of(p);
    &&& r.user_id == user_id
    &&& r.role@ == role
    &&& r.joined_at == joined_at
    &&& match last_user(users, user_id) {
        Some(u) => {
            &&& r.first_name@ == or_empty(opt_text(u.first_name))
            &&& r.last_name@ == or_empty(opt_text(u.last_name))
            &&& r.username == u.username
            &&& r.is_bot == u.bot
        },
        None => {
            &&& r.first_name@.len() == 0
            &&& r.last_name@.len() == 0
            &&& r.username is None
            &&& !r.is_bot
        },
    }
}

fn peer_user(peer: &Peer) -> (r: i64)
    ensures
        r == user_of(*peer),
{
    match peer {
        Peer::User(id) => *id,
        _ => 0,
    }
}

fn show_participant(p: &ChannelParticipant, users: &Vec<User>) -> (r: TelegramParticipant)
    ensures
        participant_matches(*p, users@, r),
{
    let (user_id, role, joined_at): (i64, &str, Option<i32>) = match p {
        ChannelParticipant::Creator { user_id } => (*user_id, "creator", None),
        ChannelParticipant::Admin { user_id, date } => (*user_id, "admin", Some(*date)),
        ChannelParticipant::Member { user_id, date } => (*user_id, "member", Some(*date)),
        ChannelParticipant::Banned { peer, date } => (peer_user(peer), "banned", Some(*date)),
        ChannelParticipant::Left { peer } => (peer_user(peer), "left", None),
        ChannelParticipant::Oneself { user_id, date } => (*user_id, "self", Some(*date)),
    };
    match find_user(users, user_id) {
        Some(u) => TelegramParticipant {
            user_id,
            first_name: copy_or_empty(&u.first_name),
            last_name: copy_or_empty(&u.last_name),
            username: copy_opt(&u.username),
            is_bot: u.bot,
            role: role.to_owned(),
            joined_at,
        },
        None => TelegramParticipant {
            user_id,
            first_name: String::new(),
            last_name: String::new(),
            username: None,
            is_bot: false,
            role: role.to_owned(),
            joined_at,
        },
    }
}

/// A reply with members; nothing where they have not changed.
pub enum ParticipantsReply {
    Participants { count: i32, participants: Vec<ChannelParticipant>, users: Vec<User> },
    NotModified,
}

/// Shows the members of a reply, each in its place.
pub fn participants_page(reply: &ParticipantsReply) -> (r: TelegramParticipantsPage)
    ensures
        match reply {
            ParticipantsReply::NotModified => r.count == 0 && r.users@.len() == 0,
            ParticipantsReply::Participants { count, participants, users } => {
                &&& r.count == count
                &&& r.users@.len() == participants@.len()
                &&& forall|i: int|
                    0 <= i < participants@.len() ==> participant_matches(
                        participants@[i],
                        users@,
                        #[trigger] r.users@[i],
                    )
            },
        },
{
    let mut shown: Vec<TelegramParticipant> = Vec::new();
    match reply {
        ParticipantsReply::NotModified => TelegramParticipantsPage { count: 0, users: shown },
        ParticipantsReply::Participants { count, participants, users } => {
            let mut i: usize = 0;
            while i < participants.len()
                invariant
                    i <= participants@.len(),
                    shown@.len() == i,
                    forall|j: int|
                        0 <= j < i ==> participant_matches(
                            participants@[j],
                            users@,
                            #[trigger] shown@[j],
                        ),
                decreases participants@.len() - i,
            {
                shown.push(show_participant(&participants[i], users));
                i = i + 1;
            }
            TelegramParticipantsPage { count: *count, users: shown }
        },
    }
}

// ------------------------------------------------------------ full information

#[derive(Debug, Clone)]
pub struct TelegramFullChannelInfo {
    pub chat_id: i64,
    pub title: String,
    pub about: String,
    pub username: Option<String>,
    pub participants_count: Option<i32>,
}

/// The channel to ask about: only channels and groups can be.
pub fn full_channel_info(session: &Session, chat_id: i64, chat_type: &str) -> (r: Result<
    InputChannel,
    ApiError,
>)
    ensures
        chat_type@ != "channel"@ && chat_type@ != "group"@ ==> (r matches Err(
            ApiError::NoFullInfo { chat_type: t },
        ) && t@ == chat_type@),
        chat_type@ == "channel"@ || chat_type@ == "group"@ ==> r == (if session.authenticated {
            Ok(channel_of(*session, chat_id))
        } else {
            Err(ApiError::NotAuthenticated)
        }),
{
    if !same_text(chat_type, "channel") && !same_text(chat_type, "group") {
        return Err(ApiError::NoFullInfo { chat_type: chat_type.to_owned() });
    }
    channel_target(session, chat_id)
}

/// The description in a reply about a channel or a basic group.
pub enum ChatFull {
    Channel { about: String, participants_count: Option<i32> },
    Group { about: String },
}

/// The title of a chat with this id, as `channels` allows channels or only groups.
pub open spec fn title_here(chat: Chat, id: i64, channels: bool) -> Option<String> {
    match chat {
        Chat::Channel(c) if channels && c.id == id => Some(c.title),
        Chat::Chat(c) if c.id == id => Some(c.title),
        _ => None,
    }
}

/// The user name of a channel with this id.
pub open spec fn username_here(chat: Chat, id: i64) -> Option<String> {
    match chat {
        Chat::Channel(c) if c.id == id => c.username,
        _ => None,
    }
}

/// The first title that a list of chats gives for an id.
pub open spec fn first_title(chats: Seq<Chat>, id: i64, channels: bool) -> Option<String>
    decreases chats.len(),
{
    if chats.len() == 0 {
        None
    } else if title_here(chats[0], id, channels) is Some {
        title_here(chats[0], id, channels)
    } else {
        first_title(chats.drop_first(), id, channels)
    }
}

/// The first user name that a list of chats gives for an id.
pub open spec fn first_username(chats: Seq<Chat>, id: i64) -> Option<String>
    decreases chats.len(),
{
    if chats.len() == 0 {
        None
    } else if username_here(chats[0], id) is Some {
        username_here(chats[0], id)
    } else {
        first_username(chats.drop_first(), id)
    }
}

fn find_title(chats: &Vec<Chat>, id: i64, channels: bool) -> (r: Option<String>)
    ensures
        r == first_title(chats@, id, channels),
{
    let mut i: usize = 0;
    proof {
        assert(chats@.skip(0) =~= chats@);
    }
    while i < chats.len()
        invariant
            i <= chats@.len(),
            first_title(chats@, id, channels) == first_title(chats@.skip(i as int), id, channels),
        decreases chats@.len() - i,
    {
        proof {
            assert(chats@.skip(i as int).drop_first() =~= chats@.skip(i + 1));
        }
        match &chats[i] {
            Chat::Channel(c) => if channels && c.id == id {
                return Some(c.title.clone());
            },
            Chat::Chat(c) => if c.id == id {
                return Some(c.title.clone());
            },
            Chat::Other => {},
        }
        i = i + 1;
    }
    None
}

fn find_username(chats: &Vec<Chat>, id: i64) -> (r: Option<String>)
    ensures
        r == first_username(chats@, id),
{
    let mut i: usize = 0;
    proof {
        assert(chats@.skip(0) =~= chats@);
    }
    while i < chats.len()
        invariant
            i <= chats@.len(),
            first_username(chats@, id) == first_username(chats@.skip(i as int), id),
        decreases chats@.len() - i,
    {
        proof {
            assert(chats@.skip(i as int).drop_first() =~= chats@.skip(i + 1));
        }
        if let Chat::Channel(c) = &chats[i] {
            if c.id == id {
                if let Some(name) = &c.username {
                    return Some(name.clone());
                }
            }
        }
        i = i + 1;
    }
    None
}

/// Reads a reply about a channel or a basic group.
pub fn channel_info(chat_id: i64, full: &ChatFull, chats: &Vec<Chat>) -> (r:
    TelegramFullChannelInfo)
    ensures
        r.chat_id == chat_id,
        match full {
            ChatFull::Channel { about, participants_count } => {
                &&& r.title@ == or_empty(opt_text(first_title(chats@, chat_id, true)))
                &&& r.about == about
                &&& r.username == first_username(chats@, chat_id)
                &&& r.participants_count == participants_count
            },
            ChatFull::Group { about } => {
                &&& r.title@ == or_empty(opt_text(first_title(chats@, chat_id, false)))
                &&& r.about == about
                &&& r.username is None
                &&& r.participants_count is None
            },
        },
{
    match full {
        ChatFull::Channel { about, participants_count } => {
            let title = find_title(chats, chat_id, true);
            TelegramFullChannelInfo {
                chat_id,
                title: copy_or_empty(&title),
                about: about.clone(),
                username: find_username(chats, chat_id),
                participants_count: *participants_count,
            }
        },
        ChatFull::Group { about } => {
            let title = find_title(chats, chat_id, false);
            TelegramFullChannelInfo {
                chat_id,
                title: copy_or_empty(&title),
                about: about.clone(),
                username: None,
                participants_count: None,
            }
        },
    }
}

/// Which members are asked for, by the name of the filter; what is no such name asks for the
/// recent ones, and a text is searched for where the filter takes one.
pub proof fn lemma_member_filters(name: Seq<char>, query: Seq<char>, r: ParticipantsFilter)
    requires
        filter_matches(name, query, r),
    ensures
        r is Admins <==> name == "admins"@,
        r is Bots <==> name == "bots"@,
        r is Kicked <==> name == "banned"@,
        r is Banned <==> name == "restricted"@,
        r is Search <==> name == "search"@,
        r matches ParticipantsFilter::Search { q } ==> q@ == query,
        r matches ParticipantsFilter::Kicked { q } ==> q@ == query,
        r matches ParticipantsFilter::Banned { q } ==> q@ == query,
{
    reveal_strlit("admins");
    reveal_strlit("bots");
    reveal_strlit("banned");
    reveal_strlit("restricted");
    reveal_strlit("search");
    assert("admins"@[0] == 'a' && "bots"@[1] == 'o' && "banned"@[1] == 'a');
    assert("banned"@[0] == 'b' && "bots"@[0] == 'b');
    assert("restricted"@[0] == 'r' && "search"@[0] == 's');
}

/// A member is shown by its own number, with the names of the user who has it, and joined
/// when the service says so.
pub proof fn lemma_member_is_shown(p: ChannelParticipant, users: Seq<User>, r: TelegramParticipant)
    requires
        participant_matches(p, users, r),
    ensures
        match p {
            ChannelParticipant::Creator { user_id } => r.user_id == user_id && r.role@ == "creator"@
                && r.joined_at is None,
            ChannelParticipant::Admin { user_id, date } => r.user_id == user_id && r.role@
                == "admin"@ && r.joined_at == Some(date),
            ChannelParticipant::Member { user_id, date } => r.user_id == user_id && r.role@
                == "member"@ && r.joined_at == Some(date),
            ChannelParticipant::Oneself { user_id, date } => r.user_id == user_id && r.role@
                == "self"@ && r.joined_at == Some(date),
            ChannelParticipant::Banned { peer, date } => r.role@ == "banned"@ && r.joined_at
                == Some(date) && (peer matches Peer::User(id) ==> r.user_id == id),
            ChannelParticipant::Left { peer } => r.role@ == "left"@ && r.joined_at is None && (
            peer matches Peer::User(id) ==> r.user_id == id),
        },
        last_user(users, r.user_id) matches Some(u) ==> {
            &&& u.first_name matches Some(name) ==> r.first_name@ == name@
            &&& u.last_name matches Some(name) ==> r.last_name@ == name@
            &&& r.username == u.username
            &&& r.is_bot == u.bot
        },
{
}

/// The title of a chat is that of the first chat with its number.
pub proof fn lemma_first_title(chats: Seq<Chat>, id: i64, k: int)
    requires
        0 <= k < chats.len(),
        match chats[k] {
            Chat::Channel(c) => c.id == id,
            Chat::Chat(c) => c.id == id,
            Chat::Other => false,
        },
        forall|i: int|
            0 <= i < k ==> match #[trigger] chats[i] {
                Chat::Channel(c) => c.id != id,
                Chat::Chat(c) => c.id != id,
                Chat::Other => true,
            },
    ensures
        match chats[k] {
            Chat::Channel(c) => first_title(chats, id, true) == Some(c.title),
            Chat::Chat(c) => first_title(chats, id, true) == Some(c.title) && first_title(
                chats,
                id,
                false,
            ) == Some(c.title),
            Chat::Other => true,
        },
    decreases k,
{
    if k > 0 {
        let rest = chats.drop_first();
        assert(title_here(chats[0], id, true) is None);
        assert(title_here(chats[0], id, false) is None);
        assert forall|i: int| 0 <= i < k - 1 implies match #[trigger] rest[i] {
            Chat::Channel(c) => c.id != id,
            Chat::Chat(c) => c.id != id,
            Chat::Other => true,
        } by {
            assert(rest[i] == chats[i + 1]);
        }
        lemma_first_title(rest, id, k - 1);
    }
}

/// The name of a channel is that of the first channel with its number that has one.
pub proof fn lemma_first_username(chats: Seq<Chat>, id: i64, k: int)
    requires
        0 <= k < chats.len(),
        chats[k] matches Chat::Channel(c) && c.id == id && c.username is Some,
        forall|i: int|
            0 <= i < k ==> (#[trigger] chats[i] matches Chat::Channel(c) ==> c.id != id
                || c.username is None),
    ensures
        chats[k] matches Chat::Channel(c) && first_username(chats, id) == c.username,
    decreases k,
{
    if k > 0 {
        let rest = chats.drop_first();
        assert(chats[0] matches Chat::Channel(c) ==> c.id != id || c.username is None);
        assert forall|i: int| 0 <= i < k - 1 implies (#[trigger] rest[i] matches Chat::Channel(c)
            ==> c.id != id || c.username is None) by {
            assert(rest[i] == chats[i + 1]);
        }
        lemma_first_username(rest, id, k - 1);
    }
}

} // verus!
