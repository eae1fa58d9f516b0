//! A report on what listing a chat's media finds.

use vstd::prelude::*;

use super::list_media::{fetch_media_page, GetHistory, Search};
use super::media::filter_for;
use super::models::{messages_of, reply_messages, InputPeer, Message, MessagesReply};
use crate::text::{joined, joined3, signed_decimal, signed_text};

verus! {

#[derive(Debug)]
pub struct ListMediaDiag {
    pub chat_id: i64,
    pub chat_type: String,
    pub access_hash_cached: i64,
    pub access_hash_resolved: i64,
    pub auto_resolve_attempted: bool,
    pub auto_resolve_outcome: String,
    pub get_history_count: i32,
    pub get_history_with_media: i32,
    pub get_history_error: Option<String>,
    pub search_photo_count: i32,
    pub search_video_count: i32,
    pub search_document_count: i32,
    pub search_audio_count: i32,
    pub search_errors: Vec<String>,
    pub final_count: i32,
    pub elapsed_ms: u128,
}

/// How much of the history the report looks at.
pub const DIAG_HISTORY_LIMIT: i32 = 100;

/// How much each search of the report asks for.
pub const DIAG_SEARCH_LIMIT: u32 = 50;

/// The piece of history that the report looks at.
pub fn diag_history(peer: InputPeer) -> (r: GetHistory)
    ensures
        r == (GetHistory { peer, offset_id: 0, limit: DIAG_HISTORY_LIMIT }),
        r.limit == 100,
{
    GetHistory { peer, offset_id: 0, limit: DIAG_HISTORY_LIMIT }
}

/// The search for one kind of media that the report makes.
pub fn diag_search(peer: InputPeer, kind: &str) -> (r: Search)
    ensures
        r.peer == peer,
        r.q@.len() == 0,
        r.filter == filter_for(Some(kind@)),
        r.offset_id == 0,
        r.limit == DIAG_SEARCH_LIMIT,
        r.limit == 50,
{
    proof {
        reveal_strlit("");
    }
    fetch_media_page(peer, Some(kind), "", 0, DIAG_SEARCH_LIMIT)
}

/// What the report says of the search for the access hash.
pub open spec fn resolve_text(outcome: Option<Result<Option<i64>, String>>) -> Seq<char> {
    match outcome {
        None => "not_attempted"@,
        Some(Ok(Some(h))) => "resolved="@ + signed_decimal(h as int),
        Some(Ok(None)) => "not_found_in_dialogs"@,
        Some(Err(e)) => "error: "@ + e@,
    }
}

fn describe_resolve(outcome: &Option<Result<Option<i64>, String>>) -> (r: String)
    ensures
        r@ == resolve_text(*outcome),
{
    match outcome {
        None => "not_attempted".to_owned(),
        Some(Ok(Some(h))) => {
            let number = signed_text(*h);
            joined("resolved=", number.as_str())
        },
        Some(Ok(None)) => "not_found_in_dialogs".to_owned(),
        Some(Err(e)) => joined("error: ", e.as_str()),
    }
}

/// How many messages carry media.
pub open spec fn with_media(messages: Seq<Message>) -> nat
    decreases messages.len(),
{
    if messages.len() == 0 {
        0
    } else {
        with_media(messages.drop_last()) + match messages.last() {
            Message::Message(m) => if m.media is Some {
                1nat
            } else {
                0
            },
            _ => 0,
        }
    }
}

fn count_media(messages: &Vec<Message>) -> (r: i32)
    requires
        messages@.len() <= i32::MAX,
    ensures
        r == with_media(messages@),
        0 <= r <= messages@.len(),
{
    let mut count: i32 = 0;
    let mut i: usize = 0;
    while i < messages.len()
        invariant
            i <= messages@.len() <= i32::MAX,
            0 <= count <= i,
            count == with_media(messages@.take(i as int)),
        decreases messages@.len() - i,
    {
        proof {
            assert(messages@.take(i + 1).drop_last() =~= messages@.take(i as int));
        }
        if let Message::Message(m) = &messages[i] {
            if m.media.is_some() {
                count = count + 1;
            }
        }
        i = i + 1;
    }
    proof {
        assert(messages@.take(i as int) =~= messages@);
    }
    count
}

/// The number that a search found, or 0 where it failed.
pub open spec fn count_or_zero(search: Result<i32, String>) -> int {
    match search {
        Ok(n) => n as int,
        Err(_) => 0,
    }
}

fn or_zero(search: &Result<i32, String>) -> (r: i32)
    ensures
        r == count_or_zero(*search),
{
    match search {
        Ok(n) => *n,
        Err(_) => 0,
    }
}

/// What the searches found together.
pub open spec fn found_by_search(searches: Seq<Result<i32, String>>) -> int {
    count_or_zero(searches[0]) + count_or_zero(searches[1]) + count_or_zero(searches[2])
        + count_or_zero(searches[3])
}

/// The failures of the searches, each behind the kind that was searched for.
pub open spec fn failures(searches: Seq<Result<i32, String>>, kinds: Seq<Seq<char>>) -> Seq<Seq<char>>
    decreases searches.len(),
{
    if searches.len() == 0 {
        Seq::empty()
    } else {
        let before = failures(searches.drop_last(), kinds);
        match searches.last() {
            Ok(_) => before,
            Err(e) => before.push(kinds[searches.len() - 1] + ": "@ + e@),
        }
    }
}

pub open spec fn kind_names() -> Seq<Seq<char>> {
    seq!["photo"@, "video"@, "document"@, "audio"@]
}

/// The texts of a list of strings.
pub open spec fn texts(v: Seq<String>) -> Seq<Seq<char>> {
    v.map_values(|s: String| s@)
}

fn push_failure(errors: &mut Vec<String>, kind: &str, search: &Result<i32, String>)
    ensures
        texts(final(errors)@) == (match search {
            Ok(_) => texts(old(errors)@),
            Err(e) => texts(old(errors)@).push(kind@ + ": "@ + e@),
        }),
{
    if let Err(e) = search {
        errors.push(joined3(kind, ": ", e.as_str()));
        proof {
            assert(texts(errors@) =~= texts(old(errors)@).push(kind@ + ": "@ + e@));
        }
    }
}

fn describe_failures(searches: &Vec<Result<i32, String>>) -> (r: Vec<String>)
    requires
        searches@.len() == 4,
    ensures
        texts(r@) == failures(searches@, kind_names()),
{
    let mut errors: Vec<String> = Vec::new();
    let ghost kinds = kind_names();
    proof {
        assert(texts(errors@) =~= Seq::empty());
        reveal_with_fuel(failures, 5);
        let s = searches@;
        assert(s.take(4) =~= s);
        assert(s.take(4).drop_last() =~= s.take(3));
        assert(s.take(3).drop_last() =~= s.take(2));
        assert(s.take(2).drop_last() =~= s.take(1));
        assert(s.take(1).drop_last() =~= s.take(0));
    }
    push_failure(&mut errors, "photo", &searches[0]);
    assert(texts(errors@) == failures(searches@.take(1), kinds));
    push_failure(&mut errors, "video", &searches[1]);
    assert(texts(errors@) == failures(searches@.take(2), kinds));
    push_failure(&mut errors, "document", &searches[2]);
    assert(texts(errors@) == failures(searches@.take(3), kinds));
    push_failure(&mut errors, "audio", &searches[3]);
    errors
}

/// Reports what listing a chat's media finds. `resolve` is what the search for the
/// access hash came to, where there was one; `history` the first piece of history;
/// `searches` the number of messages that the searches for photos, videos, documents
/// and audio found.
pub fn diag_list_media(
    chat_id: i64,
    chat_type: &str,
    cached: i64,
    resolve: &Option<Result<Option<i64>, String>>,
    history: Result<MessagesReply, String>,
    searches: &Vec<Result<i32, String>>,
    elapsed_ms: u128,
) -> (r: ListMediaDiag)
    requires
        searches@.len() == 4,
        forall|i: int| 0 <= i < 4 ==> count_or_zero(#[trigger] searches@[i]) >= 0,
        found_by_search(searches@) <= i32::MAX,
        history matches Ok(reply) ==> reply_messages(reply).len() <= i32::MAX,
    ensures
        r.chat_id == chat_id,
        r.chat_type@ == chat_type@,
        r.access_hash_cached == cached,
        r.access_hash_resolved == (match resolve {
            Some(Ok(Some(h))) => *h,
            _ => cached,
        }),
        r.auto_resolve_attempted == (resolve is Some),
        r.auto_resolve_outcome@ == resolve_text(*resolve),
        match history {
            Ok(reply) => {
                &&& r.get_history_count == reply_messages(reply).len()
                &&& r.get_history_with_media == with_media(reply_messages(reply))
                &&& r.get_history_error is None
            },
            Err(e) => {
                &&& r.get_history_count == 0
                &&& r.get_history_with_media == 0
                &&& r.get_history_error == Some(e)
            },
        },
        r.search_photo_count == count_or_zero(searches@[0]),
        r.search_video_count == count_or_zero(searches@[1]),
        r.search_document_count == count_or_zero(searches@[2]),
        r.search_audio_count == count_or_zero(searches@[3]),
        texts(r.search_errors@) == failures(searches@, kind_names()),
        r.final_count == (if r.get_history_with_media > found_by_search(searches@) {
            r.get_history_with_media as int
        } else {
            found_by_search(searches@)
        }),
        r.elapsed_ms == elapsed_ms,
{
    let access_hash_resolved: i64 = match resolve {
        Some(Ok(Some(h))) => *h,
        _ => cached,
    };
    let (get_history_count, get_history_with_media, get_history_error): (
        i32,
        i32,
        Option<String>,
    ) = match history {
        Ok(reply) => {
            let messages = messages_of(reply);
            (messages.len() as i32, count_media(&messages), None)
        },
        Err(e) => (0, 0, Some(e)),
    };
    proof {
        assert(count_or_zero(searches@[0]) >= 0);
        assert(count_or_zero(searches@[1]) >= 0);
        assert(count_or_zero(searches@[2]) >= 0);
        assert(count_or_zero(searches@[3]) >= 0);
    }
    let photos = or_zero(&searches[0]);
    let videos = or_zero(&searches[1]);
    let documents = or_zero(&searches[2]);
    let audio = or_zero(&searches[3]);
    let found: i32 = photos + videos + documents + audio;
    ListMediaDiag {
        chat_id,
        chat_type: chat_type.to_owned(),
        access_hash_cached: cached,
        access_hash_resolved,
        auto_resolve_attempted: resolve.is_some(),
        auto_resolve_outcome: describe_resolve(resolve),
        get_history_count,
        get_history_with_media,
        get_history_error,
        search_photo_count: photos,
        search_video_count: videos,
        search_document_count: documents,
        search_audio_count: audio,
        search_errors: describe_failures(searches),
        final_count: if get_history_with_media > found {
            get_history_with_media
        } else {
            found
        },
        elapsed_ms,
    }
}

/// The messages with media of two runs add up, and each message with media counts once.
pub proof fn lemma_media_add_up(a: Seq<Message>, b: Seq<Message>, m: Message)
    ensures
        with_media(a + b) == with_media(a) + with_media(b),
        m matches Message::Message(d) ==> with_media(seq![m]) == (if d.media is Some {
            1nat
        } else {
            0
        }),
        !(m is Message) ==> with_media(seq![m]) == 0,
    decreases b.len(),
{
    assert(seq![m].drop_last() =~= Seq::<Message>::empty());
    assert(with_media(Seq::empty()) == 0);
    if b.len() == 0 {
        assert(a + b =~= a);
    } else {
        lemma_media_add_up(a, b.drop_last(), m);
        assert((a + b).drop_last() =~= a + b.drop_last());
    }
}

/// Each search that failed is reported, in the order of the searches, with its kind and its
/// failure.
pub proof fn lemma_failures_are_reported(
    searches: Seq<Result<i32, String>>,
    kinds: Seq<Seq<char>>,
    k: int,
)
    requires
        0 <= k < searches.len(),
        searches[k] is Err,
    ensures
        ({
            let before = failures(searches.take(k), kinds).len() as int;
            &&& before < failures(searches, kinds).len()
            &&& failures(searches, kinds)[before] == kinds[k] + ": "@ + searches[k]->Err_0@
        }),
    decreases searches.len(),
{
    let front = searches.drop_last();
    if k < front.len() {
        assert(front.take(k) =~= searches.take(k));
        lemma_failures_are_reported(front, kinds, k);
    } else {
        assert(front =~= searches.take(k));
    }
}

/// There are as many reports as failed searches: none where all went well.
pub proof fn lemma_no_failures(searches: Seq<Result<i32, String>>, kinds: Seq<Seq<char>>)
    ensures
        failures(searches, kinds).len() <= searches.len(),
        (forall|i: int| 0 <= i < searches.len() ==> #[trigger] searches[i] is Ok) ==> failures(
            searches,
            kinds,
        ).len() == 0,
    decreases searches.len(),
{
    if searches.len() > 0 {
        let front = searches.drop_last();
        lemma_no_failures(front, kinds);
        assert(forall|i: int| 0 <= i < front.len() ==> #[trigger] front[i] == searches[i]);
        assert(searches[searches.len() - 1] == searches.last());
    }
}

/// The four searches count together, whichever of them found something.
pub proof fn lemma_searches_count_together(a: i32, b: i32, c: i32, d: i32, e: String)
    ensures
        found_by_search(seq![Ok(a), Ok(b), Ok(c), Ok(d)]) == a + b + c + d,
        found_by_search(seq![Err(e), Ok(b), Ok(c), Ok(d)]) == b + c + d,
        found_by_search(seq![Ok(a), Err(e), Ok(c), Ok(d)]) == a + c + d,
        found_by_search(seq![Ok(a), Ok(b), Err(e), Ok(d)]) == a + b + d,
        found_by_search(seq![Ok(a), Ok(b), Ok(c), Err(e)]) == a + b + c,
{
}

/// What is said of a search for a channel: nothing, the hash that it found, that it found
/// none, or why it failed.
pub proof fn lemma_resolve_texts(h: i64, e: String)
    ensures
        resolve_text(Some(Ok(Some(h)))) == "resolved="@ + signed_decimal(h as int),
        resolve_text(Some(Err(e))) == "error: "@ + e@,
        resolve_text(Some(Ok(None))) == "not_found_in_dialogs"@,
        resolve_text(None) == "not_attempted"@,
{
}

} // verus!
