//! Searching all chats.

use vstd::prelude::*;

use super::lookup::{find_chat, find_user, last_chat, last_user};
use super::media::{
    carries_media, has_settled_name, is_named_on, item_matches, lemma_item_tells_of_its_message,
    lemma_listed_place, tells_of, items_match, lemma_one_item_for_a_message,
    listed_messages, media_item, same_but_name, TelegramMediaItem,
};
use super::models::{Chat, Message, MessageData, Peer, User, UserData};
use super::session::{ApiError, Session};
use crate::text::{joined, joined3, signed_decimal, signed_text, trim_text, trimmed};

verus! {

/// A search over all chats.
#[derive(Debug)]
pub struct SearchGlobal {
    pub q: String,
    pub limit: i32,
}

/// An unsigned number of 32 bits read as a signed one.
pub open spec fn as_signed(n: u32) -> int {
    if n <= i32::MAX {
        n as int
    } else {
        n - 0x1_0000_0000
    }
}

/// Reinterprets the bits of an unsigned number.
pub fn signed_bits(n: u32) -> (r: i32)
    ensures
        r == as_signed(n),
{
    proof {
        assert(n <= 0x7fff_ffff ==> n as i32 == n) by (bit_vector);
        assert(n > 0x7fff_ffff ==> n as i32 == n - 0x1_0000_0000) by (bit_vector);
    }
    n as i32
}

fn search_request(session: &Session, query: &str, limit: u32) -> (r: Result<SearchGlobal, ApiError>)
    ensures
        match r {
            Ok(s) => session.authenticated && s.q@ == query@ && s.limit == as_signed(limit),
            Err(e) => !session.authenticated && e == ApiError::NotAuthenticated,
        },
{
    if !session.authenticated {
        return Err(ApiError::NotAuthenticated);
    }
    Ok(SearchGlobal { q: query.to_owned(), limit: signed_bits(limit) })
}

/// The search whose reply `media_items` lists.
pub fn search_global(session: &Session, query: &str, limit: u32) -> (r: Result<
    SearchGlobal,
    ApiError,
>)
    ensures
        match r {
            Ok(s) => session.authenticated && s.q@ == query@ && s.limit == as_signed(limit),
            Err(e) => !session.authenticated && e == ApiError::NotAuthenticated,
        },
{
    search_request(session, query, limit)
}

/// The search whose reply `global_hits` lists.
pub fn search_global_hits(session: &Session, query: &str, limit: u32) -> (r: Result<
    SearchGlobal,
    ApiError,
>)
    ensures
        match r {
            Ok(s) => session.authenticated && s.q@ == query@ && s.limit == as_signed(limit),
            Err(e) => !session.authenticated && e == ApiError::NotAuthenticated,
        },
{
    search_request(session, query, limit)
}

/// An item together with the chat it was found in.
#[derive(Debug, Clone)]
pub struct TelegramGlobalSearchHit {
    pub chat_id: i64,
    pub chat_type: String,
    pub chat_title: String,
    pub item: TelegramMediaItem,
}

/// What a user is called: the names there are, else `@` and the user name, else a
/// name made of the id.
pub open spec fn user_display(u: UserData) -> Seq<char> {
    match (u.first_name, u.last_name) {
        (Some(f), Some(l)) => trimmed(f@ + " "@ + l@),
        (Some(f), None) => f@,
        (None, Some(l)) => l@,
        (None, None) => match u.username {
            Some(name) => "@"@ + name@,
            None => "Usuário "@ + signed_decimal(u.id as int),
        },
    }
}

fn display_user(u: &UserData) -> (r: String)
    ensures
        r@ == user_display(*u),
{
    match (&u.first_name, &u.last_name) {
        (Some(f), Some(l)) => {
            let full = joined3(f.as_str(), " ", l.as_str());
            trim_text(full.as_str())
        },
        (Some(f), None) => f.clone(),
        (None, Some(l)) => l.clone(),
        (None, None) => match &u.username {
            Some(name) => joined("@", name.as_str()),
            None => {
                let id = signed_text(u.id);
                joined("Usuário ", id.as_str())
            },
        },
    }
}

/// The title and type of a chat that the reply describes, else those that its peer
/// stands for.
pub open spec fn chat_heading(chats: Seq<Chat>, id: i64, name: Seq<char>, kind: Seq<char>) -> (
    Seq<char>,
    Seq<char>,
) {
    match last_chat(chats, id) {
        Some(Chat::Channel(c)) => (
            c.title@,
            if c.megagroup {
                "group"@
            } else {
                "channel"@
            },
        ),
        Some(Chat::Chat(c)) => (c.title@, "group"@),
        _ => (name + signed_decimal(id as int), kind),
    }
}

/// The id, title and type of the chat that a message is in.
pub open spec fn heading(peer: Peer, chats: Seq<Chat>, users: Seq<User>) -> (
    i64,
    Seq<char>,
    Seq<char>,
) {
    match peer {
        Peer::Channel(id) => {
            let (title, kind) = chat_heading(chats, id, "Canal "@, "channel"@);
            (id, title, kind)
        },
        Peer::Chat(id) => {
            let (title, kind) = chat_heading(chats, id, "Grupo "@, "group"@);
            (id, title, kind)
        },
        Peer::User(id) => (
            id,
            match last_user(users, id) {
                Some(u) => user_display(u),
                None => "Usuário "@ + signed_decimal(id as int),
            },
            "private"@,
        ),
    }
}

fn head_of_chat(chats: &Vec<Chat>, id: i64, name: &str, kind: &str) -> (r: (String, String))
    ensures
        (r.0@, r.1@) == chat_heading(chats@, id, name@, kind@),
{
    match find_chat(chats, id) {
        Some(Chat::Channel(c)) => (
            c.title.clone(),
            if c.megagroup {
                "group".to_owned()
            } else {
                "channel".to_owned()
            },
        ),
        Some(Chat::Chat(c)) => (c.title.clone(), "group".to_owned()),
        _ => {
            let number = signed_text(id);
            (joined(name, number.as_str()), kind.to_owned())
        },
    }
}

fn head_of(peer: &Peer, chats: &Vec<Chat>, users: &Vec<User>) -> (r: (i64, String, String))
    ensures
        (r.0, r.1@, r.2@) == heading(*peer, chats@, users@),
{
    match peer {
        Peer::Channel(id) => {
            let (title, kind) = head_of_chat(chats, *id, "Canal ", "channel");
            (*id, title, kind)
        },
        Peer::Chat(id) => {
            let (title, kind) = head_of_chat(chats, *id, "Grupo ", "group");
            (*id, title, kind)
        },
        Peer::User(id) => {
            let title = match find_user(users, *id) {
                Some(u) => display_user(u),
                None => {
                    let number = signed_text(*id);
                    joined("Usuário ", number.as_str())
                },
            };
            (*id, title, "private".to_owned())
        },
    }
}

/// `hit` shows a message and the chat it is in.
pub open spec fn hit_matches(
    msg: MessageData,
    chats: Seq<Chat>,
    users: Seq<User>,
    fix_extensions: bool,
    hit: TelegramGlobalSearchHit,
) -> bool {
    &&& (hit.chat_id, hit.chat_title@, hit.chat_type@) == heading(msg.peer, chats, users)
    &&& item_matches(msg, fix_extensions, hit.item)
}

/// `hits` show `msgs`, one hit for each message.
pub open spec fn hits_match(
    msgs: Seq<MessageData>,
    chats: Seq<Chat>,
    users: Seq<User>,
    fix_extensions: bool,
    hits: Seq<TelegramGlobalSearchHit>,
) -> bool {
    &&& hits.len() == msgs.len()
    &&& forall|i: int|
        0 <= i < hits.len() ==> hit_matches(msgs[i], chats, users, fix_extensions, #[trigger] hits[i])
}

/// Lists what a search over all chats found, with the chat of each item.
pub fn global_hits(
    messages: &Vec<Message>,
    chats: &Vec<Chat>,
    users: &Vec<User>,
    fix_extensions: bool,
) -> (r: Vec<TelegramGlobalSearchHit>)
    ensures
        hits_match(listed_messages(messages@), chats@, users@, fix_extensions, r@),
{
    let mut hits: Vec<TelegramGlobalSearchHit> = Vec::new();
    let mut i: usize = 0;
    while i < messages.len()
        invariant
            i <= messages@.len(),
            hits_match(
                listed_messages(messages@.take(i as int)),
                chats@,
                users@,
                fix_extensions,
                hits@,
            ),
        decreases messages@.len() - i,
    {
        proof {
            assert(messages@.take(i + 1).drop_last() =~= messages@.take(i as int));
        }
        if let Message::Message(msg) = &messages[i] {
            if let Some(item) = media_item(msg, fix_extensions) {
                let (chat_id, chat_title, chat_type) = head_of(&msg.peer, chats, users);
                hits.push(TelegramGlobalSearchHit { chat_id, chat_type, chat_title, item });
            }
        }
        i = i + 1;
    }
    proof {
        assert(messages@.take(i as int) =~= messages@);
    }
    hits
}

/// The two searches over all chats list the same: the item of each hit is the one that
/// the plain search gives for the same reply, element by element. Their names are the
/// same where both were named on one platform, which calls `extension(path)` the extension
/// of a path, and where all platforms agree on them.
pub proof fn lemma_hits_are_items(
    messages: Seq<Message>,
    chats: Seq<Chat>,
    users: Seq<User>,
    fix_extensions: bool,
    extension: spec_fn(Seq<char>) -> Option<Seq<char>>,
    hits: Seq<TelegramGlobalSearchHit>,
    items: Seq<TelegramMediaItem>,
)
    requires
        hits_match(listed_messages(messages), chats, users, fix_extensions, hits),
        items_match(listed_messages(messages), fix_extensions, items),
    ensures
        hits.len() == items.len(),
        forall|i: int|
            0 <= i < hits.len() ==> {
                let msg = listed_messages(messages)[i];
                &&& same_but_name((#[trigger] hits[i]).item, items[i])
                &&& has_settled_name(msg, fix_extensions) ==> hits[i].item.file_name@
                    == items[i].file_name@
                &&& is_named_on(msg, fix_extensions, extension, hits[i].item) && is_named_on(
                    msg,
                    fix_extensions,
                    extension,
                    items[i],
                ) ==> hits[i].item.file_name@ == items[i].file_name@
            },
{
    let msgs = listed_messages(messages);
    assert forall|i: int| 0 <= i < hits.len() implies {
        let msg = msgs[i];
        &&& same_but_name((#[trigger] hits[i]).item, items[i])
        &&& has_settled_name(msg, fix_extensions) ==> hits[i].item.file_name@
            == items[i].file_name@
        &&& is_named_on(msg, fix_extensions, extension, hits[i].item) && is_named_on(
            msg,
            fix_extensions,
            extension,
            items[i],
        ) ==> hits[i].item.file_name@ == items[i].file_name@
    } by {
        assert(hit_matches(msgs[i], chats, users, fix_extensions, hits[i]));
        assert(item_matches(msgs[i], fix_extensions, items[i]));
        lemma_one_item_for_a_message(
            msgs[i],
            fix_extensions,
            extension,
            hits[i].item,
            items[i],
        );
    }
}

/// A hit is headed by the chat of its message: by its own number and by the title of the
/// last chat with this number in the reply.
pub proof fn lemma_headings(peer: Peer, chats: Seq<Chat>, users: Seq<User>)
    ensures
        match peer {
            Peer::Channel(id) => heading(peer, chats, users).0 == id && (last_chat(
                chats,
                id,
            ) matches Some(Chat::Channel(c)) ==> heading(peer, chats, users).1 == c.title@ && (
            heading(peer, chats, users).2 == "group"@ <==> c.megagroup)) && (last_chat(
                chats,
                id,
            ) is None ==> heading(peer, chats, users).1 == "Canal "@ + signed_decimal(id as int)
                && heading(peer, chats, users).2 == "channel"@),
            Peer::Chat(id) => heading(peer, chats, users).0 == id && (last_chat(
                chats,
                id,
            ) matches Some(Chat::Chat(c)) ==> heading(peer, chats, users).1 == c.title@ && heading(
                peer,
                chats,
                users,
            ).2 == "group"@) && (last_chat(chats, id) is None ==> heading(peer, chats, users).1
                == "Grupo "@ + signed_decimal(id as int)),
            Peer::User(id) => heading(peer, chats, users).0 == id && heading(
                peer,
                chats,
                users,
            ).2 == "private"@ && (last_user(users, id) matches Some(u) ==> {
                &&& u.first_name is Some && u.last_name is None ==> heading(peer, chats, users).1
                    == u.first_name->0@
                &&& u.first_name is None && u.last_name is Some ==> heading(peer, chats, users).1
                    == u.last_name->0@
                &&& u.first_name is Some && u.last_name is Some ==> heading(peer, chats, users).1
                    == trimmed(u.first_name->0@ + " "@ + u.last_name->0@)
                &&& u.first_name is None && u.last_name is None && u.username is Some ==> heading(
                    peer,
                    chats,
                    users,
                ).1 == "@"@ + u.username->0@
            }),
        },
{
    reveal_strlit("group");
    reveal_strlit("channel");
    assert("group"@.len() != "channel"@.len());
}

/// A number without sign becomes the one with sign that has the same bits.
pub proof fn lemma_signed_bits(n: u32)
    ensures
        i32::MIN <= as_signed(n) <= i32::MAX,
        as_signed(n) % 0x1_0000_0000 == n,
        n <= 0x7fff_ffff ==> as_signed(n) == n,
{
}

/// Every message of a reply that carries media is a hit, headed by its chat, behind the hits
/// of the messages before it.
pub proof fn lemma_every_media_is_a_hit(
    messages: Seq<Message>,
    chats: Seq<Chat>,
    users: Seq<User>,
    fix_extensions: bool,
    hits: Seq<TelegramGlobalSearchHit>,
    k: int,
)
    requires
        hits_match(listed_messages(messages), chats, users, fix_extensions, hits),
        0 <= k < messages.len(),
        messages[k] matches Message::Message(m) && carries_media(m),
    ensures
        ({
            let at = listed_messages(messages.take(k)).len() as int;
            let m = messages[k]->Message_0;
            &&& at < hits.len()
            &&& tells_of(hits[at].item, m)
            &&& match m.peer {
                Peer::Channel(id) => hits[at].chat_id == id,
                Peer::Chat(id) => hits[at].chat_id == id,
                Peer::User(id) => hits[at].chat_id == id,
            }
        }),
{
    lemma_listed_place(messages, k);
    let at = listed_messages(messages.take(k)).len() as int;
    let m = messages[k]->Message_0;
    assert(hit_matches(listed_messages(messages)[at], chats, users, fix_extensions, hits[at]));
    lemma_item_tells_of_its_message(m, fix_extensions, hits[at].item);
    lemma_headings(m.peer, chats, users);
}

} // verus!
