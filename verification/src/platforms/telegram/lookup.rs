//! Finding users and chats in the lists that come with a reply.
//!
//! Where a list holds two records with one id, the later one counts.

use vstd::prelude::*;

use super::models::{Chat, User, UserData};

verus! {

/// The last user with an id.
pub open spec fn last_user(users: Seq<User>, id: i64) -> Option<UserData>
    decreases users.len(),
{
    if users.len() == 0 {
        None
    } else {
        match users.last() {
            User::User(u) if u.id == id => Some(u),
            _ => last_user(users.drop_last(), id),
        }
    }
}

/// Finds the last user with an id.
pub fn find_user<'a>(users: &'a Vec<User>, id: i64) -> (r: Option<&'a UserData>)
    ensures
        match last_user(users@, id) {
            Some(u) => r == Some(&u),
            None => r is None,
        },
{
    let mut i: usize = users.len();
    proof {
        assert(users@.take(i as int) =~= users@);
    }
    while i > 0
        invariant
            i <= users@.len(),
            last_user(users@, id) == last_user(users@.take(i as int), id),
        decreases i,
    {
        i = i - 1;
        proof {
            assert(users@.take(i + 1).drop_last() =~= users@.take(i as int));
        }
        if let User::User(u) = &users[i] {
            if u.id == id {
                return Some(u);
            }
        }
    }
    None
}

/// The id of a basic group or a channel.
pub open spec fn chat_id(chat: Chat) -> Option<i64> {
    match chat {
        Chat::Chat(c) => Some(c.id),
        Chat::Channel(c) => Some(c.id),
        Chat::Other => None,
    }
}

/// The last basic group or channel with an id.
pub open spec fn last_chat(chats: Seq<Chat>, id: i64) -> Option<Chat>
    decreases chats.len(),
{
    if chats.len() == 0 {
        None
    } else if chat_id(chats.last()) == Some(id) {
        Some(chats.last())
    } else {
        last_chat(chats.drop_last(), id)
    }
}

/// Finds the last basic group or channel with an id.
pub fn find_chat<'a>(chats: &'a Vec<Chat>, id: i64) -> (r: Option<&'a Chat>)
    ensures
        match last_chat(chats@, id) {
            Some(c) => r == Some(&c) && chat_id(c) == Some(id),
            None => r is None,
        },
{
    let mut i: usize = chats.len();
    proof {
        assert(chats@.take(i as int) =~= chats@);
    }
    while i > 0
        invariant
            i <= chats@.len(),
            last_chat(chats@, id) == last_chat(chats@.take(i as int), id),
        decreases i,
    {
        i = i - 1;
        proof {
            assert(chats@.take(i + 1).drop_last() =~= chats@.take(i as int));
        }
        let same = match &chats[i] {
            Chat::Chat(c) => c.id == id,
            Chat::Channel(c) => c.id == id,
            Chat::Other => false,
        };
        if same {
            return Some(&chats[i]);
        }
    }
    None
}

/// A user is described exactly where one with this number is listed, and by the last one of
/// them.
pub proof fn lemma_last_user(users: Seq<User>, id: i64)
    ensures
        match last_user(users, id) {
            Some(u) => u.id == id && exists|k: int|
                {
                    &&& 0 <= k < users.len()
                    &&& #[trigger] users[k] == User::User(u)
                    &&& forall|i: int|
                        k < i < users.len() ==> (#[trigger] users[i] matches User::User(v) ==> v.id
                            != id)
                },
            None => forall|i: int|
                0 <= i < users.len() ==> (#[trigger] users[i] matches User::User(v) ==> v.id != id),
        },
    decreases users.len(),
{
    if users.len() > 0 {
        let front = users.drop_last();
        let n = front.len() as int;
        lemma_last_user(front, id);
        assert(users[n] == users.last());
        let here = users.last() matches User::User(u) && u.id == id;
        if here {
            assert(users[n] == User::User(last_user(users, id)->0));
        } else if last_user(users, id) is Some {
            let u = last_user(users, id)->0;
            let k = choose|k: int|
                {
                    &&& 0 <= k < front.len()
                    &&& #[trigger] front[k] == User::User(u)
                    &&& forall|i: int|
                        k < i < front.len() ==> (#[trigger] front[i] matches User::User(v) ==> v.id
                            != id)
                };
            assert(users[k] == User::User(u));
            assert forall|i: int| k < i < users.len() implies (
            #[trigger] users[i] matches User::User(v) ==> v.id != id) by {
                if i < n {
                    assert(front[i] == users[i]);
                }
            }
        } else {
            assert forall|i: int| 0 <= i < users.len() implies (
            #[trigger] users[i] matches User::User(v) ==> v.id != id) by {
                if i < n {
                    assert(front[i] == users[i]);
                }
            }
        }
    }
}

/// A basic group or a channel with this number.
pub open spec fn is_chat(chat: Chat, id: i64) -> bool {
    (chat matches Chat::Chat(c) && c.id == id) || (chat matches Chat::Channel(c) && c.id == id)
}

/// A chat is described exactly where one with this number is listed, and by the last one of
/// them.
pub proof fn lemma_last_chat(chats: Seq<Chat>, id: i64)
    ensures
        match last_chat(chats, id) {
            Some(c) => is_chat(c, id) && exists|k: int|
                {
                    &&& 0 <= k < chats.len()
                    &&& #[trigger] chats[k] == c
                    &&& forall|i: int| k < i < chats.len() ==> !is_chat(#[trigger] chats[i], id)
                },
            None => forall|i: int| 0 <= i < chats.len() ==> !is_chat(#[trigger] chats[i], id),
        },
    decreases chats.len(),
{
    if chats.len() > 0 {
        let front = chats.drop_last();
        let n = front.len() as int;
        lemma_last_chat(front, id);
        assert(chats[n] == chats.last());
        if is_chat(chats.last(), id) {
            assert(chats[n] == last_chat(chats, id)->0);
        } else if last_chat(chats, id) is Some {
            let c = last_chat(chats, id)->0;
            let k = choose|k: int|
                {
                    &&& 0 <= k < front.len()
                    &&& #[trigger] front[k] == c
                    &&& forall|i: int| k < i < front.len() ==> !is_chat(#[trigger] front[i], id)
                };
            assert(chats[k] == c);
            assert forall|i: int| k < i < chats.len() implies !is_chat(#[trigger] chats[i], id) by {
                if i < n {
                    assert(front[i] == chats[i]);
                }
            }
        } else {
            assert forall|i: int| 0 <= i < chats.len() implies !is_chat(#[trigger] chats[i], id) by {
                if i < n {
                    assert(front[i] == chats[i]);
                }
            }
        }
    }
}

} // verus!
