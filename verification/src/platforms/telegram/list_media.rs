//! Listing and searching the media of a chat.

use std::collections::HashSet;

use vstd::prelude::*;

use super::media::{
    carries_media, filter_for, items_match, lemma_every_media_is_listed, lemma_filters_of_kinds,
    listed_messages, media_filter, media_items, tells_of, MessagesFilter, TelegramMediaItem,
};
use super::models::{reply_messages, messages_of, InputPeer, Message, MessagesReply};
use super::requests::{peer_target, target};
use super::rpc::{channel_invalid, is_channel_invalid_error};
use super::search::{as_signed, signed_bits};
use super::session::{ApiError, Session};
use crate::sort::{lemma_same_items, sort_descending, sorted, SortBy};
use crate::text::{
    contains_text, has_text, joined, joined3, opt_str, same_text, signed_decimal, signed_text,
    upper_text,
};

verus! {

/// A search in one chat.
#[derive(Debug)]
pub struct Search {
    pub peer: InputPeer,
    pub q: String,
    pub filter: MessagesFilter,
    pub offset_id: i32,
    pub limit: i32,
}

/// A piece of a chat's history.
#[derive(Debug, Clone, Copy, PartialEq, Eq, Structural)]
pub struct GetHistory {
    pub peer: InputPeer,
    pub offset_id: i32,
    pub limit: i32,
}

/// The search for one kind of media.
pub fn fetch_media_page(
    peer: InputPeer,
    media_type: Option<&str>,
    query: &str,
    offset: i32,
    limit: u32,
) -> (r: Search)
    ensures
        r.peer == peer,
        r.q@ == query@,
        r.filter == filter_for(opt_str(media_type)),
        r.offset_id == offset,
        r.limit == as_signed(limit),
{
    Search {
        peer,
        q: query.to_owned(),
        filter: media_filter(media_type),
        offset_id: offset,
        limit: signed_bits(limit),
    }
}

/// The piece of history to read media from.
pub fn fetch_media_via_history(peer: InputPeer, offset_id: i32, limit: u32) -> (r: GetHistory)
    ensures
        r.peer == peer,
        r.offset_id == offset_id,
        r.limit == as_signed(limit),
{
    GetHistory { peer, offset_id, limit: signed_bits(limit) }
}

/// `r` is what a reply, or the failure of the request called `request`, amounts to.
/// Where only administrators may ask, there is nothing to list.
pub open spec fn page_matches(
    reply: Result<MessagesReply, String>,
    request: Seq<char>,
    fix_extensions: bool,
    r: Result<Vec<TelegramMediaItem>, String>,
) -> bool {
    match reply {
        Ok(messages) => r matches Ok(items) && items_match(
            listed_messages(reply_messages(messages)),
            fix_extensions,
            items@,
        ),
        Err(msg) => if has_text(msg@, "CHAT_ADMIN_REQUIRED"@) {
            r matches Ok(items) && items@.len() == 0
        } else {
            r matches Err(e) && e@ == request + " failed: "@ + msg@
        },
    }
}

fn read_page(
    reply: Result<MessagesReply, String>,
    request: &str,
    fix_extensions: bool,
) -> (r: Result<Vec<TelegramMediaItem>, String>)
    ensures
        page_matches(reply, request@, fix_extensions, r),
{
    match reply {
        Ok(found) => {
            let messages = messages_of(found);
            Ok(media_items(&messages, fix_extensions))
        },
        Err(msg) => if contains_text(msg.as_str(), "CHAT_ADMIN_REQUIRED") {
            Ok(Vec::new())
        } else {
            Err(joined3(request, " failed: ", msg.as_str()))
        },
    }
}

/// Lists the media that a search found.
pub fn read_search(reply: Result<MessagesReply, String>, fix_extensions: bool) -> (r: Result<
    Vec<TelegramMediaItem>,
    String,
>)
    ensures
        page_matches(reply, "messages.Search"@, fix_extensions, r),
{
    read_page(reply, "messages.Search", fix_extensions)
}

/// Lists the media of a piece of history.
pub fn read_history(reply: Result<MessagesReply, String>, fix_extensions: bool) -> (r: Result<
    Vec<TelegramMediaItem>,
    String,
>)
    ensures
        page_matches(reply, "messages.GetHistory"@, fix_extensions, r),
{
    read_page(reply, "messages.GetHistory", fix_extensions)
}

// ------------------------------------------------------------ merging pages

/// Newest items first.
pub struct NewestFirst;

impl SortBy<TelegramMediaItem> for NewestFirst {
    open spec fn key(x: &TelegramMediaItem) -> int {
        x.date as int
    }

    fn key_of(x: &TelegramMediaItem) -> (r: i128) {
        x.date as i128
    }
}

/// The first `n` items of a sequence, or all of it.
pub open spec fn at_most<T>(s: Seq<T>, n: int) -> Seq<T> {
    if s.len() <= n {
        s
    } else {
        s.take(n)
    }
}

/// The newest `limit` items, newest first.
pub open spec fn newest(items: Seq<TelegramMediaItem>, limit: int) -> Seq<TelegramMediaItem> {
    at_most(sorted::<TelegramMediaItem, NewestFirst>(items), limit)
}

/// Sorts items, newest first, and keeps `limit` of them.
pub fn newest_items(items: Vec<TelegramMediaItem>, limit: usize) -> (r: Vec<TelegramMediaItem>)
    ensures
        r@ == newest(items@, limit as int),
{
    let mut out = sort_descending::<TelegramMediaItem, NewestFirst>(items);
    if out.len() > limit {
        out.truncate(limit);
        proof {
            assert(out@ =~= newest(items@, limit as int));
        }
    }
    out
}

/// The items of those pages that came, page after page.
pub open spec fn all_items(pages: Seq<Result<Vec<TelegramMediaItem>, String>>) -> Seq<
    TelegramMediaItem,
>
    decreases pages.len(),
{
    if pages.len() == 0 {
        Seq::empty()
    } else {
        all_items(pages.drop_last()) + match pages.last() {
            Ok(items) => items@,
            Err(_) => Seq::empty(),
        }
    }
}

/// An item of the message stands in a list.
pub open spec fn lists_message(items: Seq<TelegramMediaItem>, id: i32) -> bool {
    exists|i: int| 0 <= i < items.len() && (#[trigger] items[i]).message_id == id
}

/// The items without those whose message was listed before.
pub open spec fn unrepeated(items: Seq<TelegramMediaItem>) -> Seq<TelegramMediaItem>
    decreases items.len(),
{
    if items.len() == 0 {
        items
    } else {
        let before = unrepeated(items.drop_last());
        if lists_message(before, items.last().message_id) {
            before
        } else {
            before.push(items.last())
        }
    }
}

/// What several pages amount to: each message once, the newest `limit` of them.
pub open spec fn merged(pages: Seq<Result<Vec<TelegramMediaItem>, String>>, limit: int) -> Seq<
    TelegramMediaItem,
> {
    newest(unrepeated(all_items(pages)), limit)
}

fn without_repeats(items: Vec<TelegramMediaItem>) -> (r: Vec<TelegramMediaItem>)
    ensures
        r@ == unrepeated(items@),
{
    broadcast use vstd::std_specs::hash::group_hash_axioms;

    let ghost all = items@;
    let mut kept: Vec<TelegramMediaItem> = Vec::new();
    let mut seen: HashSet<i32> = HashSet::new();
    for item in it: items
        invariant
            it.seq() == all,
            kept@ == unrepeated(all.take(it.index() as int)),
            forall|id: i32| #[trigger] seen@.contains(id) <==> lists_message(kept@, id),
    {
        let ghost before = kept@;
        let ghost i = it.index() as int;
        proof {
            assert(all.take(i + 1).drop_last() =~= all.take(i));
        }
        let id = item.message_id;
        if seen.insert(id) {
            kept.push(item);
            proof {
                assert forall|x: i32| #[trigger] seen@.contains(x) <==> lists_message(kept@, x) by {
                    if x == id {
                        assert(kept@[kept@.len() - 1].message_id == id);
                    } else {
                        if lists_message(before, x) {
                            let j = choose|j: int|
                                0 <= j < before.len() && (#[trigger] before[j]).message_id == x;
                            assert(kept@[j] == before[j]);
                        }
                        if lists_message(kept@, x) {
                            let j = choose|j: int|
                                0 <= j < kept@.len() && (#[trigger] kept@[j]).message_id == x;
                            assert(before[j] == kept@[j]);
                        }
                    }
                }
            }
        }
    }
    proof {
        assert(all.take(all.len() as int) =~= all);
    }
    kept
}

fn concat_pages(pages: Vec<Result<Vec<TelegramMediaItem>, String>>) -> (r: Vec<TelegramMediaItem>)
    ensures
        r@ == all_items(pages@),
{
    let ghost all = pages@;
    let mut out: Vec<TelegramMediaItem> = Vec::new();
    for page in it: pages
        invariant
            it.seq() == all,
            out@ == all_items(all.take(it.index() as int)),
    {
        proof {
            assert(all.take(it.index() + 1).drop_last() =~= all.take(it.index() as int));
        }
        if let Ok(items) = page {
            let mut more = items;
            out.append(&mut more);
        }
        proof {
            assert(out@ =~= all_items(all.take(it.index() + 1)));
        }
    }
    proof {
        assert(all.take(all.len() as int) =~= all);
    }
    out
}

/// Merges pages of media: each message once, newest first, at most `limit`. Pages
/// that could not be had are left out.
pub fn merge_dedup_media(results: Vec<Result<Vec<TelegramMediaItem>, String>>, limit: usize) -> (r:
    Vec<TelegramMediaItem>)
    ensures
        r@ == merged(results@, limit as int),
{
    let items = without_repeats(concat_pages(results));
    newest_items(items, limit)
}

// ------------------------------------------------------------ laws of merging

/// Each message that was listed is kept once, and no other is.
pub proof fn lemma_unrepeated(items: Seq<TelegramMediaItem>)
    ensures
        forall|i: int, j: int|
            #![trigger unrepeated(items)[i], unrepeated(items)[j]]
            0 <= i < j < unrepeated(items).len() ==> unrepeated(items)[i].message_id != unrepeated(
                items,
            )[j].message_id,
        forall|id: i32|
            #[trigger] lists_message(items, id) <==> lists_message(unrepeated(items), id),
    decreases items.len(),
{
    if items.len() > 0 {
        let front = items.drop_last();
        let last = items.last();
        lemma_unrepeated(front);
        let before = unrepeated(front);
        let after = unrepeated(items);
        assert forall|id: i32| #[trigger] lists_message(items, id) <==> lists_message(after, id) by {
            if lists_message(items, id) {
                let i = choose|i: int| 0 <= i < items.len() && (#[trigger] items[i]).message_id == id;
                if i < front.len() {
                    assert(front[i].message_id == id);
                    assert(lists_message(front, id));
                    let j = choose|j: int|
                        0 <= j < before.len() && (#[trigger] before[j]).message_id == id;
                    assert(after[j] == before[j]);
                } else if !lists_message(before, id) {
                    assert(after[after.len() - 1].message_id == id);
                }
            }
            if lists_message(after, id) {
                let i = choose|i: int| 0 <= i < after.len() && (#[trigger] after[i]).message_id == id;
                if i < before.len() {
                    assert(before[i].message_id == id);
                    assert(lists_message(before, id));
                    assert(lists_message(front, id));
                    let j = choose|j: int|
                        0 <= j < front.len() && (#[trigger] front[j]).message_id == id;
                    assert(items[j] == front[j]);
                } else {
                    assert(items[items.len() - 1].message_id == id);
                }
            }
        }
        assert forall|i: int, j: int|
            #![trigger after[i], after[j]]
            0 <= i < j < after.len() implies after[i].message_id != after[j].message_id by {
            assert(before[i] == after[i]);
            if j < before.len() {
                assert(before[j] == after[j]);
            }
        }
    }
}

/// Merged pages hold at most `limit` items, newest first, and no message twice.
pub proof fn lemma_merged(pages: Seq<Result<Vec<TelegramMediaItem>, String>>, limit: int)
    requires
        limit >= 0,
    ensures
        merged(pages, limit).len() <= limit,
        forall|i: int, j: int|
            #![trigger merged(pages, limit)[i], merged(pages, limit)[j]]
            0 <= i < j < merged(pages, limit).len() ==> {
                &&& merged(pages, limit)[i].date >= merged(pages, limit)[j].date
                &&& merged(pages, limit)[i].message_id != merged(pages, limit)[j].message_id
            },
{
    let once = unrepeated(all_items(pages));
    lemma_unrepeated(all_items(pages));
    let order = sorted::<TelegramMediaItem, NewestFirst>(once);
    crate::sort::lemma_sorted_is_stable_sort::<TelegramMediaItem, NewestFirst>(once);
    crate::sort::lemma_same_items_stay_distinct(
        once,
        order,
        |x: TelegramMediaItem| x.message_id as int,
    );
    let out = merged(pages, limit);
    assert forall|i: int, j: int|
        #![trigger out[i], out[j]]
        0 <= i < j < out.len() implies out[i].date >= out[j].date && out[i].message_id
        != out[j].message_id by {
        assert(out[i] == order[i] && out[j] == order[j]);
        assert(NewestFirst::key(&order[i]) >= NewestFirst::key(&order[j]));
        let f = |x: TelegramMediaItem| x.message_id as int;
        assert(f(order[i]) != f(order[j]));
    }
}

/// The items of two runs of pages are those of the one and then those of the other; a page
/// that came brings all its items, and one that did not brings none.
pub proof fn lemma_pages_add_up(
    a: Seq<Result<Vec<TelegramMediaItem>, String>>,
    b: Seq<Result<Vec<TelegramMediaItem>, String>>,
    page: Result<Vec<TelegramMediaItem>, String>,
)
    ensures
        all_items(a + b) == all_items(a) + all_items(b),
        page matches Ok(items) ==> all_items(seq![page]) == items@,
        page is Err ==> all_items(seq![page]) == Seq::<TelegramMediaItem>::empty(),
    decreases b.len(),
{
    let none = Seq::<Result<Vec<TelegramMediaItem>, String>>::empty();
    assert(seq![page].drop_last() =~= none);
    assert(all_items(none) =~= Seq::<TelegramMediaItem>::empty());
    if page is Ok {
        assert(all_items(seq![page]) =~= page->Ok_0@);
    } else {
        assert(all_items(seq![page]) =~= Seq::<TelegramMediaItem>::empty());
    }
    if b.len() == 0 {
        assert(a + b =~= a);
        assert(all_items(a + b) =~= all_items(a) + all_items(b));
    } else {
        lemma_pages_add_up(a, b.drop_last(), page);
        assert((a + b).drop_last() =~= a + b.drop_last());
        assert(all_items(a + b) =~= all_items(a) + all_items(b));
    }
}

/// An item stands in one of the pages that came.
pub open spec fn is_in_page(
    pages: Seq<Result<Vec<TelegramMediaItem>, String>>,
    p: int,
    item: TelegramMediaItem,
) -> bool {
    0 <= p < pages.len() && (pages[p] matches Ok(items) && items@.contains(item))
}

pub open spec fn is_in_pages(
    pages: Seq<Result<Vec<TelegramMediaItem>, String>>,
    item: TelegramMediaItem,
) -> bool {
    exists|p: int| is_in_page(pages, p, item)
}

proof fn lemma_all_items(
    pages: Seq<Result<Vec<TelegramMediaItem>, String>>,
    item: TelegramMediaItem,
)
    ensures
        all_items(pages).contains(item) <==> is_in_pages(pages, item),
    decreases pages.len(),
{
    if pages.len() > 0 {
        let front = pages.drop_last();
        let before = all_items(front);
        let all = all_items(pages);
        let n = front.len() as int;
        lemma_all_items(front, item);
        if all.contains(item) {
            let k = choose|k: int| 0 <= k < all.len() && all[k] == item;
            if k < before.len() {
                assert(before[k] == item);
                let p = choose|p: int| is_in_page(front, p, item);
                assert(is_in_page(pages, p, item));
            } else {
                assert(pages.last()->Ok_0@[k - before.len()] == item);
                assert(is_in_page(pages, n, item));
            }
        }
        if is_in_pages(pages, item) {
            let p = choose|p: int| is_in_page(pages, p, item);
            if p < n {
                assert(is_in_page(front, p, item));
                let k = choose|k: int| 0 <= k < before.len() && before[k] == item;
                assert(all[k] == item);
            } else {
                let items = pages[p]->Ok_0@;
                let k = choose|k: int| 0 <= k < items.len() && items[k] == item;
                assert(all[before.len() + k] == item);
            }
        }
    } else {
        assert forall|p: int| !is_in_page(pages, p, item) by {}
    }
}

proof fn lemma_unrepeated_items(items: Seq<TelegramMediaItem>, item: TelegramMediaItem)
    requires
        unrepeated(items).contains(item),
    ensures
        items.contains(item),
    decreases items.len(),
{
    if items.len() > 0 {
        let before = unrepeated(items.drop_last());
        let after = unrepeated(items);
        let k = choose|k: int| 0 <= k < after.len() && after[k] == item;
        if k < before.len() {
            assert(before[k] == item);
            lemma_unrepeated_items(items.drop_last(), item);
            let j = choose|j: int| 0 <= j < items.drop_last().len() && items.drop_last()[j] == item;
            assert(items[j] == item);
        } else {
            assert(items[items.len() - 1] == item);
        }
    }
}

/// Of several items for one message the first is kept.
pub proof fn lemma_first_item_is_kept(items: Seq<TelegramMediaItem>, k: int)
    requires
        0 <= k < items.len(),
        forall|i: int| 0 <= i < k ==> (#[trigger] items[i]).message_id != items[k].message_id,
    ensures
        unrepeated(items).contains(items[k]),
    decreases items.len(),
{
    let front = items.drop_last();
    let before = unrepeated(front);
    let after = unrepeated(items);
    if k < front.len() {
        assert forall|i: int| 0 <= i < k implies (#[trigger] front[i]).message_id
            != front[k].message_id by {
            assert(front[i] == items[i]);
        }
        lemma_first_item_is_kept(front, k);
        let j = choose|j: int| 0 <= j < before.len() && before[j] == items[k];
        assert(after[j] == items[k]);
    } else {
        lemma_unrepeated(front);
        let id = items[k].message_id;
        if lists_message(before, id) {
            assert(lists_message(front, id));
            let j = choose|j: int| 0 <= j < front.len() && (#[trigger] front[j]).message_id == id;
            assert(items[j].message_id == id);
        }
        assert(after[after.len() - 1] == items[k]);
    }
}

/// The newest items are as many as the limit allows, and only items of the list. Every item
/// is among them where the limit allows as many; else none that is left out is newer than
/// one that is kept.
pub proof fn lemma_newest(items: Seq<TelegramMediaItem>, limit: int, k: int)
    requires
        limit >= 0,
        0 <= k < items.len(),
    ensures
        ({
            let kept = newest(items, limit);
            &&& kept.len() == (if items.len() <= limit {
                items.len() as int
            } else {
                limit
            })
            &&& forall|i: int| 0 <= i < kept.len() ==> items.contains(#[trigger] kept[i])
            &&& forall|i: int, j: int|
                0 <= i < j < kept.len() ==> (#[trigger] kept[i]).date >= (#[trigger] kept[j]).date
            &&& kept.contains(items[k]) || (kept.len() == limit && forall|i: int|
                0 <= i < kept.len() ==> (#[trigger] kept[i]).date >= items[k].date)
        }),
{
    let order = sorted::<TelegramMediaItem, NewestFirst>(items);
    let kept = newest(items, limit);
    crate::sort::lemma_sorted_is_stable_sort::<TelegramMediaItem, NewestFirst>(items);
    assert forall|i: int| 0 <= i < kept.len() implies items.contains(#[trigger] kept[i]) by {
        assert(order[i] == kept[i]);
        lemma_same_items(order, items, order[i]);
    }
    assert forall|i: int, j: int| 0 <= i < j < kept.len() implies (#[trigger] kept[i]).date >= (
    #[trigger] kept[j]).date by {
        assert(order[i] == kept[i] && order[j] == kept[j]);
        assert(NewestFirst::key(&order[i]) >= NewestFirst::key(&order[j]));
    }
    assert(items.contains(items[k]));
    lemma_same_items(items, order, items[k]);
    let at = choose|at: int| 0 <= at < order.len() && order[at] == items[k];
    if at < kept.len() {
        assert(kept[at] == items[k]);
    } else {
        assert forall|i: int| 0 <= i < kept.len() implies (#[trigger] kept[i]).date
            >= items[k].date by {
            assert(order[i] == kept[i]);
            assert(NewestFirst::key(&order[i]) >= NewestFirst::key(&order[at]));
        }
    }
}

/// Merged pages list every message of every page that came, as long as the limit is not
/// reached, and nothing that is in none of them.
pub proof fn lemma_merged_lists_every_page(
    pages: Seq<Result<Vec<TelegramMediaItem>, String>>,
    limit: int,
    p: int,
    item: TelegramMediaItem,
)
    requires
        limit >= 0,
        0 <= p < pages.len(),
        pages[p] matches Ok(items) && items@.contains(item),
    ensures
        ({
            let all = merged(pages, limit);
            &&& all.len() < limit ==> exists|i: int|
                0 <= i < all.len() && (#[trigger] all[i]).message_id == item.message_id
            &&& limit >= unrepeated(all_items(pages)).len() ==> exists|i: int|
                0 <= i < all.len() && (#[trigger] all[i]).message_id == item.message_id
            &&& forall|i: int|
                0 <= i < all.len() ==> is_in_pages(pages, #[trigger] all[i])
        }),
{
    let flat = all_items(pages);
    let once = unrepeated(flat);
    let all = merged(pages, limit);
    assert(is_in_page(pages, p, item));
    lemma_all_items(pages, item);
    let f = choose|f: int| 0 <= f < flat.len() && flat[f] == item;
    assert(flat[f].message_id == item.message_id);
    assert(lists_message(flat, item.message_id));
    lemma_unrepeated(flat);
    assert(lists_message(once, item.message_id));
    let k = choose|k: int| 0 <= k < once.len() && (#[trigger] once[k]).message_id
        == item.message_id;
    lemma_newest(once, limit, k);
    if all.len() < limit || limit >= once.len() {
        if !all.contains(once[k]) {
            assert(all.len() == once.len());
            let order = sorted::<TelegramMediaItem, NewestFirst>(once);
            crate::sort::lemma_sorted_is_stable_sort::<TelegramMediaItem, NewestFirst>(once);
            lemma_same_items(once, order, once[k]);
            assert(all =~= order);
        }
        let i = choose|i: int| 0 <= i < all.len() && all[i] == once[k];
        assert(all[i].message_id == item.message_id);
    }
    assert forall|i: int| 0 <= i < all.len() implies is_in_pages(pages, #[trigger] all[i]) by {
        assert(once.contains(all[i]));
        lemma_unrepeated_items(flat, all[i]);
        lemma_all_items(pages, all[i]);
    }
}

/// A message that is left out of merged pages is no newer than any that is listed.
pub proof fn lemma_merged_leaves_out_the_oldest(
    pages: Seq<Result<Vec<TelegramMediaItem>, String>>,
    limit: int,
    k: int,
)
    requires
        limit >= 0,
        0 <= k < all_items(pages).len(),
        forall|i: int|
            0 <= i < k ==> (#[trigger] all_items(pages)[i]).message_id != all_items(
                pages,
            )[k].message_id,
    ensures
        ({
            let all = merged(pages, limit);
            let item = all_items(pages)[k];
            all.contains(item) || (all.len() == limit && forall|i: int|
                0 <= i < all.len() ==> (#[trigger] all[i]).date >= item.date)
        }),
{
    let flat = all_items(pages);
    let once = unrepeated(flat);
    lemma_first_item_is_kept(flat, k);
    let j = choose|j: int| 0 <= j < once.len() && once[j] == flat[k];
    lemma_newest(once, limit, j);
}

// ------------------------------------------------------------ one try

/// The kinds of media that are searched for one by one where no kind is asked for.
pub fn search_kinds() -> (r: Vec<&'static str>)
    ensures
        r@.len() == 4,
        r@[0]@ == "photo"@,
        r@[1]@ == "video"@,
        r@[2]@ == "document"@,
        r@[3]@ == "audio"@,
{
    let mut out: Vec<&'static str> = Vec::new();
    out.push("photo");
    out.push("video");
    out.push("document");
    out.push("audio");
    out
}

/// `s` searches in a chat for one kind of media.
pub open spec fn is_search(
    s: Search,
    peer: InputPeer,
    kind: Option<Seq<char>>,
    query: Seq<char>,
    offset: i32,
    limit: u32,
) -> bool {
    &&& s.peer == peer
    &&& s.q@ == query
    &&& s.filter == filter_for(kind)
    &&& s.offset_id == offset
    &&& s.limit == as_signed(limit)
}

/// `list` searches in a chat for the kind that is asked for, or else for each of them.
pub open spec fn are_searches(
    list: Seq<Search>,
    peer: InputPeer,
    kind: Option<Seq<char>>,
    query: Seq<char>,
    offset: i32,
    limit: u32,
) -> bool {
    if kind is Some {
        &&& list.len() == 1
        &&& is_search(list[0], peer, kind, query, offset, limit)
    } else {
        &&& list.len() == 4
        &&& is_search(list[0], peer, Some("photo"@), query, offset, limit)
        &&& is_search(list[1], peer, Some("video"@), query, offset, limit)
        &&& is_search(list[2], peer, Some("document"@), query, offset, limit)
        &&& is_search(list[3], peer, Some("audio"@), query, offset, limit)
    }
}

/// The searches for the kind that is asked for, or else for each kind.
pub fn searches(
    peer: InputPeer,
    media_type: Option<&str>,
    query: &str,
    offset: i32,
    limit: u32,
) -> (r: Vec<Search>)
    ensures
        are_searches(r@, peer, opt_str(media_type), query@, offset, limit),
{
    let mut out: Vec<Search> = Vec::new();
    if media_type.is_some() {
        out.push(fetch_media_page(peer, media_type, query, offset, limit));
        return out;
    }
    let kinds = search_kinds();
    out.push(fetch_media_page(peer, Some(kinds[0]), query, offset, limit));
    out.push(fetch_media_page(peer, Some(kinds[1]), query, offset, limit));
    out.push(fetch_media_page(peer, Some(kinds[2]), query, offset, limit));
    out.push(fetch_media_page(peer, Some(kinds[3]), query, offset, limit));
    out
}

/// What the pages of `searches` amount to where a chat is searched: the one page, or
/// those of all kinds together.
pub fn found_media(
    one_kind: bool,
    pages: Vec<Result<Vec<TelegramMediaItem>, String>>,
    limit: u32,
) -> (r: Result<Vec<TelegramMediaItem>, String>)
    requires
        one_kind ==> pages@.len() == 1,
    ensures
        if one_kind {
            r == pages@[0]
        } else {
            r matches Ok(items) && items@ == merged(pages@, limit as int)
        },
{
    if one_kind {
        let mut only = pages;
        only.remove(0)
    } else {
        Ok(merge_dedup_media(pages, limit as usize))
    }
}

/// What to do after a piece of history was read for a list of all kinds.
pub enum AfterHistory {
    /// These are the items.
    Done(Vec<TelegramMediaItem>),
    /// The history could not be read.
    Fail(String),
    /// There were none: search for each kind.
    SearchKinds,
}

/// What a piece of history leads to.
pub fn after_history(page: Result<Vec<TelegramMediaItem>, String>, limit: u32) -> (r: AfterHistory)
    ensures
        match page {
            Err(e) => r == AfterHistory::Fail(e),
            Ok(items) => if items@.len() == 0 {
                r is SearchKinds
            } else {
                r matches AfterHistory::Done(out) && out@ == newest(items@, limit as int)
            },
        },
{
    match page {
        Err(e) => AfterHistory::Fail(e),
        Ok(items) => if items.len() == 0 {
            AfterHistory::SearchKinds
        } else {
            AfterHistory::Done(newest_items(items, limit as usize))
        },
    }
}

/// The first failure among pages.
pub open spec fn first_failure(pages: Seq<Result<Vec<TelegramMediaItem>, String>>) -> Seq<char>
    decreases pages.len(),
{
    if pages.len() == 0 {
        Seq::empty()
    } else {
        match pages[0] {
            Err(e) => e@,
            Ok(_) => first_failure(pages.drop_first()),
        }
    }
}

fn find_failure(pages: &Vec<Result<Vec<TelegramMediaItem>, String>>) -> (r: String)
    ensures
        r@ == first_failure(pages@),
{
    let mut i: usize = 0;
    proof {
        assert(pages@.skip(0) =~= pages@);
    }
    while i < pages.len()
        invariant
            i <= pages@.len(),
            first_failure(pages@) == first_failure(pages@.skip(i as int)),
        decreases pages@.len() - i,
    {
        proof {
            assert(pages@.skip(i as int).drop_first() =~= pages@.skip(i + 1));
        }
        if let Err(e) = &pages[i] {
            return e.clone();
        }
        i = i + 1;
    }
    String::new()
}

/// The failure that is reported is that of the first page that failed.
pub proof fn lemma_first_failure(pages: Seq<Result<Vec<TelegramMediaItem>, String>>, k: int)
    requires
        0 <= k < pages.len(),
        pages[k] is Err,
        forall|i: int| 0 <= i < k ==> #[trigger] pages[i] is Ok,
    ensures
        first_failure(pages) == pages[k]->Err_0@,
    decreases k,
{
    if k > 0 {
        let rest = pages.drop_first();
        assert(pages[0] is Ok);
        assert forall|i: int| 0 <= i < k - 1 implies #[trigger] rest[i] is Ok by {
            assert(rest[i] == pages[i + 1]);
        }
        lemma_first_failure(rest, k - 1);
    }
}

/// A page failed because the channel cannot be reached with the hash in use.
pub open spec fn page_lost(page: Result<Vec<TelegramMediaItem>, String>) -> bool {
    page matches Err(e) && channel_invalid(upper_text(e@))
}

/// Whether a page failed because the channel cannot be reached.
pub fn any_page_lost(pages: &Vec<Result<Vec<TelegramMediaItem>, String>>) -> (r: bool)
    ensures
        r == exists|i: int| 0 <= i < pages@.len() && page_lost(#[trigger] pages@[i]),
{
    let mut i: usize = 0;
    while i < pages.len()
        invariant
            i <= pages@.len(),
            forall|j: int| 0 <= j < i ==> !page_lost(#[trigger] pages@[j]),
        decreases pages@.len() - i,
    {
        if let Err(e) = &pages[i] {
            if is_channel_invalid_error(e.as_str()) {
                assert(page_lost(pages@[i as int]));
                return true;
            }
        }
        i = i + 1;
    }
    false
}

/// What the searches for each kind amount to, given whether one of them failed because
/// the channel cannot be reached.
pub fn combine_searches_given(
    pages: Vec<Result<Vec<TelegramMediaItem>, String>>,
    lost: bool,
    limit: u32,
) -> (r: Result<Vec<TelegramMediaItem>, String>)
    ensures
        if lost {
            r matches Err(e) && e@ == "CHANNEL_INVALID propagated: "@ + first_failure(pages@)
        } else {
            r matches Ok(items) && items@ == merged(pages@, limit as int)
        },
{
    if lost {
        let first = find_failure(&pages);
        Err(joined("CHANNEL_INVALID propagated: ", first.as_str()))
    } else {
        Ok(merge_dedup_media(pages, limit as usize))
    }
}

/// What the searches for each kind amount to: the pages that came, unless the channel
/// cannot be reached.
pub fn combine_searches(pages: Vec<Result<Vec<TelegramMediaItem>, String>>, limit: u32) -> (r: Result<
    Vec<TelegramMediaItem>,
    String,
>)
    ensures
        if exists|i: int| 0 <= i < pages@.len() && page_lost(#[trigger] pages@[i]) {
            r matches Err(e) && e@ == "CHANNEL_INVALID propagated: "@ + first_failure(pages@)
        } else {
            r matches Ok(items) && items@ == merged(pages@, limit as int)
        },
{
    let lost = any_page_lost(&pages);
    combine_searches_given(pages, lost, limit)
}

// ------------------------------------------------------------ a list with a stale hash

/// How a list of media begins.
#[derive(Debug, Clone, Copy, PartialEq, Eq, Structural)]
pub struct ListStart {
    pub access_hash: i64,
    /// The access hash is not known: look for it first.
    pub resolve_first: bool,
}

/// The access hash that a list of a chat's media begins with. A channel without one is
/// looked for among the dialogs first.
pub open spec fn start_of(session: Session, chat_id: i64, chat_type: Seq<char>) -> ListStart {
    ListStart {
        access_hash: session.hash(chat_id),
        resolve_first: chat_type == "channel"@ && session.hash(chat_id) == 0,
    }
}

/// Begins to read the media of a chat.
pub fn list_start(session: &Session, chat_id: i64, chat_type: &str) -> (r: Result<
    ListStart,
    ApiError,
>)
    ensures
        r == (if session.authenticated {
            Ok(start_of(*session, chat_id, chat_type@))
        } else {
            Err(ApiError::NotAuthenticated)
        }),
{
    if !session.authenticated {
        return Err(ApiError::NotAuthenticated);
    }
    let access_hash = session.peer_hashes.get_or_zero(chat_id);
    let resolve_first = same_text(chat_type, "channel") && access_hash == 0;
    Ok(ListStart { access_hash, resolve_first })
}

/// The access hash to go on with after a channel was looked for; what was found is
/// remembered.
pub fn after_resolve(session: &mut Session, chat_id: i64, cached: i64, outcome: &Result<
    Option<i64>,
    String,
>) -> (r: i64)
    ensures
        match outcome {
            Ok(Some(h)) => {
                &&& r == h
                &&& final(session).peer_hashes@ == old(session).peer_hashes@.insert(chat_id, *h)
            },
            _ => {
                &&& r == cached
                &&& final(session).peer_hashes@ == old(session).peer_hashes@
            },
        },
        final(session).authenticated == old(session).authenticated,
        final(session).peer_photo_ids == old(session).peer_photo_ids,
        final(session).takeout_session_id == old(session).takeout_session_id,
{
    match outcome {
        Ok(Some(h)) => {
            let _ = session.peer_hashes.put(chat_id, *h);
            *h
        },
        _ => cached,
    }
}

/// Whether a failed list is tried again with a new access hash, given whether the
/// failure says that the channel cannot be reached. If so the old hash is forgotten.
pub fn give_up_hash(session: &mut Session, chat_id: i64, chat_type: &str, lost: bool) -> (r: bool)
    ensures
        r == (chat_type@ == "channel"@ && lost),
        final(session).peer_hashes@ == (if r {
            old(session).peer_hashes@.remove(chat_id)
        } else {
            old(session).peer_hashes@
        }),
        final(session).authenticated == old(session).authenticated,
        final(session).peer_photo_ids == old(session).peer_photo_ids,
        final(session).takeout_session_id == old(session).takeout_session_id,
{
    let again = same_text(chat_type, "channel") && lost;
    if again {
        session.peer_hashes.forget(chat_id);
    }
    again
}

/// What is reported where a new search for the channel does not help.
pub open spec fn still_lost_text(
    access_hash: i64,
    err: Seq<char>,
    outcome: Result<Option<i64>, String>,
) -> Seq<char> {
    match outcome {
        Ok(Some(h)) => "Channel inacessível mesmo após re-resolver access_hash ("@ + signed_decimal(
            h as int,
        )
            + "). Provavelmente você não é mais membro do channel ou ele foi deletado. Tente sair e entrar novamente pelo Telegram oficial."@,
        Ok(None) =>
            "Channel inacessível: não consegui resolver access_hash via channels.GetChannels. Você pode não ser mais membro do channel ou ele foi deletado. Tente sair e entrar novamente pelo Telegram oficial."@,
        Err(re) => "Falha ao re-resolver access_hash do channel: "@ + re@ + ". Erro original: "@ + err,
    }
}

/// The access hash for the second try of a list, or what is reported instead. Only a
/// hash that differs from the old one is tried.
pub fn after_second_resolve(
    session: &mut Session,
    chat_id: i64,
    access_hash: i64,
    err: &str,
    outcome: &Result<Option<i64>, String>,
) -> (r: Result<i64, String>)
    ensures
        if outcome matches Ok(Some(h)) && h != access_hash {
            &&& r == Ok::<i64, String>(outcome->Ok_0->0)
            &&& final(session).peer_hashes@ == old(session).peer_hashes@.insert(
                chat_id,
                outcome->Ok_0->0,
            )
        } else {
            &&& r matches Err(e) && e@ == still_lost_text(access_hash, err@, *outcome)
            &&& final(session).peer_hashes@ == old(session).peer_hashes@
        },
        final(session).authenticated == old(session).authenticated,
        final(session).peer_photo_ids == old(session).peer_photo_ids,
        final(session).takeout_session_id == old(session).takeout_session_id,
{
    match outcome {
        Ok(Some(h)) => if *h != access_hash {
            let _ = session.peer_hashes.put(chat_id, *h);
            Ok(*h)
        } else {
            let number = signed_text(*h);
            Err(
                joined3(
                    "Channel inacessível mesmo após re-resolver access_hash (",
                    number.as_str(),
                    "). Provavelmente você não é mais membro do channel ou ele foi deletado. Tente sair e entrar novamente pelo Telegram oficial.",
                ),
            )
        },
        Ok(None) => Err(
            "Channel inacessível: não consegui resolver access_hash via channels.GetChannels. Você pode não ser mais membro do channel ou ele foi deletado. Tente sair e entrar novamente pelo Telegram oficial.".to_owned(),
        ),
        Err(re) => {
            let head = joined3(
                "Falha ao re-resolver access_hash do channel: ",
                re.as_str(),
                ". Erro original: ",
            );
            Err(joined(head.as_str(), err))
        },
    }
}

/// What is kept of an item after it was listed.
#[derive(Debug, Clone)]
pub struct CachedMediaMeta {
    pub message_id: i32,
    pub filename: String,
    pub mime: String,
    pub size: u64,
}

/// What is kept of the items that were listed.
pub fn media_metadata(items: &Vec<TelegramMediaItem>) -> (r: Vec<CachedMediaMeta>)
    ensures
        r@ == items@.map_values(
            |i: TelegramMediaItem|
                CachedMediaMeta {
                    message_id: i.message_id,
                    filename: i.file_name,
                    mime: i.media_type,
                    size: i.file_size,
                },
        ),
{
    let mut out: Vec<CachedMediaMeta> = Vec::new();
    let mut i: usize = 0;
    while i < items.len()
        invariant
            i <= items@.len(),
            out@ =~= items@.take(i as int).map_values(
                |i: TelegramMediaItem|
                    CachedMediaMeta {
                        message_id: i.message_id,
                        filename: i.file_name,
                        mime: i.media_type,
                        size: i.file_size,
                    },
            ),
        decreases items@.len() - i,
    {
        let item = &items[i];
        out.push(
            CachedMediaMeta {
                message_id: item.message_id,
                filename: item.file_name.clone(),
                mime: item.media_type.clone(),
                size: item.file_size,
            },
        );
        i = i + 1;
    }
    proof {
        assert(items@.take(i as int) =~= items@);
    }
    out
}

/// The peer to search in.
pub fn search_media(session: &Session, chat_id: i64, chat_type: &str) -> (r: Result<
    InputPeer,
    ApiError,
>)
    ensures
        r == (if session.authenticated {
            Ok(target(*session, chat_id, chat_type@))
        } else {
            Err(ApiError::NotAuthenticated)
        }),
{
    peer_target(session, chat_id, chat_type)
}

/// A page lists every message of its reply that carries media. A request that only
/// administrators may make gives an empty page, and every other failure is passed on.
pub proof fn lemma_pages(
    reply: Result<MessagesReply, String>,
    request: Seq<char>,
    fix_extensions: bool,
    r: Result<Vec<TelegramMediaItem>, String>,
    k: int,
)
    requires
        page_matches(reply, request, fix_extensions, r),
    ensures
        reply matches Ok(messages) ==> {
            let all = reply_messages(messages);
            &&& r is Ok
            &&& 0 <= k < all.len() && (all[k] matches Message::Message(m) && carries_media(m))
                ==> exists|i: int|
                0 <= i < r->Ok_0@.len() && tells_of(#[trigger] r->Ok_0@[i], all[k]->Message_0)
        },
        reply matches Err(msg) ==> {
            &&& has_text(msg@, "CHAT_ADMIN_REQUIRED"@) ==> (r matches Ok(items) && items@.len() == 0)
            &&& !has_text(msg@, "CHAT_ADMIN_REQUIRED"@) ==> (r matches Err(e) && e@ == request
                + " failed: "@ + msg@)
        },
{
    if let Ok(messages) = reply {
        let all = reply_messages(messages);
        if 0 <= k < all.len() && (all[k] matches Message::Message(m) && carries_media(m)) {
            lemma_every_media_is_listed(all, fix_extensions, r->Ok_0@, k);
            let at = listed_messages(all.take(k)).len() as int;
            assert(tells_of(r->Ok_0@[at], all[k]->Message_0));
        }
    }
}

/// Without a kind the photos, videos, documents and music of a chat are searched for, each
/// from the same offset and with the same limit; with one, it alone is.
pub proof fn lemma_what_is_searched_for(
    list: Seq<Search>,
    peer: InputPeer,
    kind: Option<Seq<char>>,
    query: Seq<char>,
    offset: i32,
    limit: u32,
)
    requires
        are_searches(list, peer, kind, query, offset, limit),
    ensures
        forall|i: int|
            0 <= i < list.len() ==> {
                &&& (#[trigger] list[i]).peer == peer
                &&& list[i].q@ == query
                &&& list[i].offset_id == offset
                &&& limit <= i32::MAX ==> list[i].limit == limit
            },
        kind is None ==> list.len() == 4 && list[0].filter is Photos && list[1].filter is Video
            && list[2].filter is Document && list[3].filter is Music,
        kind matches Some(k) ==> list.len() == 1 && list[0].filter == filter_for(Some(k)),
{
    lemma_filters_of_kinds("photo"@);
    lemma_filters_of_kinds("video"@);
    lemma_filters_of_kinds("document"@);
    lemma_filters_of_kinds("audio"@);
}

/// A channel is looked for first exactly where no access hash is known of it.
pub proof fn lemma_when_a_channel_is_looked_for(
    session: Session,
    chat_id: i64,
    chat_type: Seq<char>,
)
    ensures
        ({
            let known = if session.peer_hashes@.contains_key(chat_id) {
                session.peer_hashes@[chat_id]
            } else {
                0
            };
            let start = start_of(session, chat_id, chat_type);
            &&& start.access_hash == known
            &&& start.resolve_first <==> chat_type == "channel"@ && known == 0
        }),
{
}

/// A page is lost exactly where it failed because the channel cannot be reached.
pub proof fn lemma_lost_pages(page: Result<Vec<TelegramMediaItem>, String>)
    ensures
        page is Ok ==> !page_lost(page),
        page matches Err(e) ==> (page_lost(page) <==> has_text(
            upper_text(e@),
            "CHANNEL_INVALID"@,
        ) || has_text(upper_text(e@), "CHANNEL_PRIVATE"@) || has_text(
            upper_text(e@),
            "PEER_ID_INVALID"@,
        ) || has_text(upper_text(e@), "ACCESS_HASH_INVALID"@) || has_text(
            upper_text(e@),
            "CHAT_FORBIDDEN"@,
        )),
{
}

} // verus!
