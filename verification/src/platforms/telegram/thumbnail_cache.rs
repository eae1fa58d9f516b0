//! Thumbnails and chat photos, kept in memory for a while.

use vstd::prelude::*;

use super::download::{download_media, DownloadTarget};
use super::media::{as_unsigned, unsigned_bits};
use super::models::{
    Chat, Document, FileLocation, InputPeer, MessageMedia, Photo, PhotoSize, User,
};
use super::parallel_download::{chunk_at, chunk_step, ChunkStep, MAX_CHUNK_SIZE};
use super::requests::{is_channel_like, make_input_peer, target, InputChannel};
use super::session::{ApiError, Session};
use crate::text::same_text;

verus! {

/// How long an entry is kept, in seconds.
pub const TTL_SECS: u64 = 120;

pub const NANOS_PER_SEC: u64 = 1_000_000_000;

/// How many bytes the cache holds at most.
pub const MAX_BYTES: u64 = 31_457_280;

/// How many bytes stay when the cache became too large.
pub const TARGET_BYTES: u64 = 23_592_960;

/// One picture: of a message of a chat, or of the chat itself (message 0).
pub struct CacheEntry {
    pub key: (i64, i32),
    pub data: Vec<u8>,
    /// The moment it came, in nanoseconds.
    pub inserted_at: u64,
}

/// The pictures at hand, each key once.
pub struct ThumbnailCache {
    entries: Vec<CacheEntry>,
    total_bytes: u64,
}

/// The bytes of some entries.
pub open spec fn size_of_entries(s: Seq<CacheEntry>) -> int
    decreases s.len(),
{
    if s.len() == 0 {
        0
    } else {
        size_of_entries(s.drop_last()) + s.last().data@.len()
    }
}

pub open spec fn keys_differ(s: Seq<CacheEntry>) -> bool {
    forall|i: int, j: int| 0 <= i < j < s.len() ==> (#[trigger] s[i]).key != (#[trigger] s[j]).key
}

/// An entry that is too old: more than `TTL_SECS` whole seconds have passed.
pub open spec fn is_expired(e: CacheEntry, now: u64) -> bool {
    now >= e.inserted_at && (now - e.inserted_at) / (NANOS_PER_SEC as int) > TTL_SECS
}

/// The entries that are not too old.
pub open spec fn live(s: Seq<CacheEntry>, now: u64) -> Seq<CacheEntry> {
    s.filter(|e: CacheEntry| !is_expired(e, now))
}

/// The entries with another key.
pub open spec fn without_key(s: Seq<CacheEntry>, key: (i64, i32)) -> Seq<CacheEntry> {
    s.filter(|e: CacheEntry| e.key != key)
}

/// The picture with a key.
pub open spec fn lookup(s: Seq<CacheEntry>, key: (i64, i32)) -> Option<Seq<u8>>
    decreases s.len(),
{
    if s.len() == 0 {
        None
    } else if s.last().key == key {
        Some(s.last().data@)
    } else {
        lookup(s.drop_last(), key)
    }
}

/// `after` is `before` without the entries of `gone`: the oldest ones, just as many as
/// leave no more than `TARGET_BYTES`.
pub open spec fn is_trimmed(
    before: Seq<CacheEntry>,
    after: Seq<CacheEntry>,
    gone: Seq<CacheEntry>,
) -> bool {
    &&& before.to_multiset() == after.to_multiset().add(gone.to_multiset())
    &&& forall|i: int, j: int|
        0 <= i < gone.len() && 0 <= j < after.len() ==> (#[trigger] gone[i]).inserted_at <= (
        #[trigger] after[j]).inserted_at
    &&& forall|i: int, j: int|
        0 <= i < j < gone.len() ==> (#[trigger] gone[i]).inserted_at <= (
        #[trigger] gone[j]).inserted_at
    &&& size_of_entries(after) <= TARGET_BYTES
    &&& gone.len() > 0 ==> size_of_entries(after) + gone.last().data@.len() > TARGET_BYTES
}

proof fn lemma_size_nonneg(s: Seq<CacheEntry>)
    ensures
        size_of_entries(s) >= 0,
    decreases s.len(),
{
    if s.len() > 0 {
        lemma_size_nonneg(s.drop_last());
    }
}

proof fn lemma_size_removed(s: Seq<CacheEntry>, k: int)
    requires
        0 <= k < s.len(),
    ensures
        size_of_entries(s.remove(k)) == size_of_entries(s) - s[k].data@.len(),
        size_of_entries(s) >= s[k].data@.len(),
    decreases s.len(),
{
    let t = s.drop_last();
    if k == s.len() - 1 {
        assert(s.remove(k) =~= t);
        lemma_size_nonneg(t);
    } else {
        lemma_size_removed(t, k);
        assert(s.remove(k).drop_last() =~= t.remove(k));
        assert(s.remove(k).last() == s.last());
    }
}

/// Entries that a predicate picks are no more bytes, and differ in their keys as all do.
proof fn lemma_filtered(s: Seq<CacheEntry>, p: spec_fn(CacheEntry) -> bool)
    requires
        keys_differ(s),
    ensures
        keys_differ(s.filter(p)),
        0 <= size_of_entries(s.filter(p)) <= size_of_entries(s),
        forall|i: int|
            0 <= i < s.filter(p).len() ==> p(#[trigger] s.filter(p)[i]) && s.contains(
                s.filter(p)[i],
            ),
    decreases s.len(),
{
    reveal(Seq::filter);
    lemma_size_nonneg(s);
    if s.len() > 0 {
        let t = s.drop_last();
        assert(keys_differ(t)) by {
            assert forall|i: int, j: int| 0 <= i < j < t.len() implies (#[trigger] t[i]).key != (
            #[trigger] t[j]).key by {
                assert(s[i] == t[i] && s[j] == t[j]);
            }
        }
        lemma_filtered(t, p);
        let f = s.filter(p);
        let g = t.filter(p);
        if p(s.last()) {
            assert(f.drop_last() =~= g);
        }
        assert forall|i: int| 0 <= i < f.len() implies p(#[trigger] f[i]) && s.contains(f[i]) by {
            if i < g.len() {
                assert(f[i] == g[i]);
                let k = choose|k: int| 0 <= k < t.len() && t[k] == g[i];
                assert(s[k] == g[i]);
            } else {
                assert(s[s.len() - 1] == f[i]);
            }
        }
        assert forall|i: int, j: int| 0 <= i < j < f.len() implies (#[trigger] f[i]).key != (
        #[trigger] f[j]).key by {
            if j < g.len() {
                assert(f[i] == g[i] && f[j] == g[j]);
            } else {
                assert(f[i] == g[i]);
                let k = choose|k: int| 0 <= k < t.len() && t[k] == g[i];
                assert(s[k] == f[i] && s[s.len() - 1] == f[j]);
            }
        }
    }
}

/// An entry that stands in a list of differing keys is the one that its key finds.
proof fn lemma_lookup(s: Seq<CacheEntry>, k: int)
    requires
        keys_differ(s),
        0 <= k < s.len(),
    ensures
        lookup(s, s[k].key) == Some(s[k].data@),
    decreases s.len(),
{
    if k < s.len() - 1 {
        let t = s.drop_last();
        assert(t[k] == s[k]);
        assert(s[k].key != s[s.len() - 1].key);
        assert forall|i: int, j: int| 0 <= i < j < t.len() implies (#[trigger] t[i]).key != (
        #[trigger] t[j]).key by {
            assert(s[i] == t[i] && s[j] == t[j]);
        }
        lemma_lookup(t, k);
    }
}

proof fn lemma_lookup_none(s: Seq<CacheEntry>, key: (i64, i32))
    requires
        forall|i: int| 0 <= i < s.len() ==> (#[trigger] s[i]).key != key,
    ensures
        lookup(s, key) is None,
    decreases s.len(),
{
    if s.len() > 0 {
        let t = s.drop_last();
        assert(s[s.len() - 1].key != key);
        assert forall|i: int| 0 <= i < t.len() implies (#[trigger] t[i]).key != key by {
            assert(s[i] == t[i]);
        }
        lemma_lookup_none(t, key);
    }
}

impl View for ThumbnailCache {
    type V = Seq<CacheEntry>;

    closed spec fn view(&self) -> Seq<CacheEntry> {
        self.entries@
    }
}

impl ThumbnailCache {
    pub closed spec fn counted(self) -> u64 {
        self.total_bytes
    }

    /// Each key stands for one picture, the bytes are counted, and there are no more
    /// than `MAX_BYTES`.
    pub open spec fn well_formed(self) -> bool {
        &&& keys_differ(self@)
        &&& self.counted() == size_of_entries(self@)
        &&& self.counted() <= MAX_BYTES
    }

    pub fn new() -> (r: ThumbnailCache)
        ensures
            r@.len() == 0,
            r.well_formed(),
    {
        ThumbnailCache { entries: Vec::new(), total_bytes: 0 }
    }

    /// Forgets everything.
    pub fn clear(&mut self)
        ensures
            final(self)@.len() == 0,
            final(self).well_formed(),
    {
        self.entries = Vec::new();
        self.total_bytes = 0;
    }

    /// Forgets what is too old.
    pub fn evict_expired(&mut self, now: u64)
        requires
            keys_differ(old(self)@),
            old(self).counted() == size_of_entries(old(self)@),
        ensures
            final(self)@ == live(old(self)@, now),
            keys_differ(final(self)@),
            final(self).counted() == size_of_entries(final(self)@),
            final(self).counted() <= old(self).counted(),
    {
        let ghost all = self.entries@;
        let ghost p = |e: CacheEntry| !is_expired(e, now);
        let mut kept: Vec<CacheEntry> = Vec::new();
        let mut entries: Vec<CacheEntry> = Vec::new();
        std::mem::swap(&mut entries, &mut self.entries);
        let mut total: u64 = 0;
        for entry in it: entries
            invariant
                it.seq() == all,
                p == (|e: CacheEntry| !is_expired(e, now)),
                kept@ == all.take(it.index() as int).filter(p),
                total == size_of_entries(kept@),
                keys_differ(all),
                size_of_entries(all) <= u64::MAX,
        {
            let ghost i = it.index() as int;
            proof {
                reveal(Seq::filter);
                assert(all.take(i + 1).drop_last() =~= all.take(i));
                lemma_prefix(all, i + 1);
                lemma_filtered(all.take(i + 1), p);
            }
            let expired = now >= entry.inserted_at && (now - entry.inserted_at) / NANOS_PER_SEC
                > TTL_SECS;
            if !expired {
                proof {
                    let more = kept@.push(entry);
                    assert(all.take(i + 1).filter(p) =~= more);
                    assert(more.drop_last() =~= kept@);
                    lemma_filtered(all.take(i + 1), p);
                }
                total = total + entry.data.len() as u64;
                kept.push(entry);
            }
        }
        proof {
            assert(all.take(all.len() as int) =~= all);
            lemma_filtered(all, p);
        }
        self.entries = kept;
        self.total_bytes = total;
    }

    /// Finds the oldest entry, the first of several.
    fn oldest(&self) -> (r: usize)
        requires
            self@.len() > 0,
        ensures
            r < self@.len(),
            forall|i: int|
                0 <= i < self@.len() ==> self@[r as int].inserted_at <= (
                #[trigger] self@[i]).inserted_at,
    {
        let mut best: usize = 0;
        let mut i: usize = 1;
        while i < self.entries.len()
            invariant
                best < i <= self.entries@.len(),
                forall|j: int|
                    0 <= j < i ==> self.entries@[best as int].inserted_at <= (
                    #[trigger] self.entries@[j]).inserted_at,
            decreases self.entries@.len() - i,
        {
            if self.entries[i].inserted_at < self.entries[best].inserted_at {
                best = i;
            }
            i = i + 1;
        }
        best
    }

    /// Forgets the oldest entries until no more than `TARGET_BYTES` are left.
    pub fn evict_to_target(&mut self)
        requires
            keys_differ(old(self)@),
            old(self).counted() == size_of_entries(old(self)@),
        ensures
            exists|gone: Seq<CacheEntry>| #[trigger] is_trimmed(old(self)@, final(self)@, gone),
            old(self).counted() <= TARGET_BYTES ==> final(self)@ == old(self)@,
            final(self).well_formed(),
    {
        let ghost mut gone: Seq<CacheEntry> = Seq::empty();
        proof {
            broadcast use vstd::seq_lib::group_to_multiset_ensures;

            lemma_size_nonneg(self@);
            assert(self@.to_multiset().add(gone.to_multiset()) =~= self@.to_multiset());
        }
        while self.total_bytes > TARGET_BYTES
            invariant
                keys_differ(self@),
                self.counted() == size_of_entries(self@),
                old(self)@.to_multiset() == self@.to_multiset().add(gone.to_multiset()),
                forall|i: int, j: int|
                    0 <= i < gone.len() && 0 <= j < self@.len() ==> (
                    #[trigger] gone[i]).inserted_at <= (#[trigger] self@[j]).inserted_at,
                forall|i: int, j: int|
                    0 <= i < j < gone.len() ==> (#[trigger] gone[i]).inserted_at <= (
                    #[trigger] gone[j]).inserted_at,
                gone.len() > 0 ==> size_of_entries(self@) + gone.last().data@.len() > TARGET_BYTES,
                old(self).counted() <= TARGET_BYTES ==> self@ == old(self)@ && gone.len() == 0,
                self.counted() <= old(self).counted(),
            decreases self@.len(),
        {
            let ghost before = self@;
            let ghost gone_before = gone;
            let at = self.oldest();
            proof {
                lemma_size_removed(before, at as int);
            }
            let entry = self.entries.remove(at);
            self.total_bytes = self.total_bytes - entry.data.len() as u64;
            proof {
                gone = gone.push(entry);
                lemma_moved(before, gone_before, at as int);
                assert forall|i: int, j: int| 0 <= i < j < self@.len() implies (
                #[trigger] self@[i]).key != (#[trigger] self@[j]).key by {
                    let ip = if i < at { i } else { i + 1 };
                    let jp = if j < at { j } else { j + 1 };
                    assert(before[ip] == self@[i] && before[jp] == self@[j]);
                }
                assert forall|i: int, j: int| 0 <= i < gone.len() && 0 <= j < self@.len() implies (
                #[trigger] gone[i]).inserted_at <= (#[trigger] self@[j]).inserted_at by {
                    let jp = if j < at { j } else { j + 1 };
                    assert(before[jp] == self@[j]);
                    if i < gone_before.len() {
                        assert(gone[i] == gone_before[i]);
                    }
                }
                assert forall|i: int, j: int| 0 <= i < j < gone.len() implies (
                #[trigger] gone[i]).inserted_at <= (#[trigger] gone[j]).inserted_at by {
                    assert(gone[i] == gone_before[i]);
                    if j < gone_before.len() {
                        assert(gone[j] == gone_before[j]);
                    } else {
                        assert(before[at as int] == gone[j]);
                    }
                }
            }
        }
        proof {
            assert(is_trimmed(old(self)@, self@, gone));
        }
    }

    /// The picture with a key, if it is at hand and not too old.
    pub fn get(&mut self, key: &(i64, i32), now: u64) -> (r: Option<Vec<u8>>)
        requires
            old(self).well_formed(),
        ensures
            final(self)@ == live(old(self)@, now),
            final(self).well_formed(),
            match lookup(final(self)@, *key) {
                Some(data) => r matches Some(v) && v@ == data,
                None => r is None,
            },
    {
        self.evict_expired(now);
        let mut i: usize = 0;
        while i < self.entries.len()
            invariant
                i <= self.entries@.len(),
                self@ == live(old(self)@, now),
                self.well_formed(),
                forall|j: int| 0 <= j < i ==> (#[trigger] self.entries@[j]).key != *key,
            decreases self.entries@.len() - i,
        {
            let entry = &self.entries[i];
            if entry.key.0 == key.0 && entry.key.1 == key.1 {
                proof {
                    lemma_lookup(self.entries@, i as int);
                }
                return Some(entry.data.clone());
            }
            i = i + 1;
        }
        proof {
            lemma_lookup_none(self.entries@, *key);
        }
        None
    }
}

proof fn lemma_without_key(s: Seq<CacheEntry>, key: (i64, i32), k: int)
    requires
        keys_differ(s),
        k == s.len() || (0 <= k < s.len() && s[k].key == key),
        k == s.len() ==> forall|i: int| 0 <= i < s.len() ==> (#[trigger] s[i]).key != key,
    ensures
        without_key(s, key) == (if k < s.len() {
            s.remove(k)
        } else {
            s
        }),
    decreases s.len(),
{
    reveal(Seq::filter);
    let p = |e: CacheEntry| e.key != key;
    if s.len() > 0 {
        let t = s.drop_last();
        assert forall|i: int, j: int| 0 <= i < j < t.len() implies (#[trigger] t[i]).key != (
        #[trigger] t[j]).key by {
            assert(s[i] == t[i] && s[j] == t[j]);
        }
        if k == s.len() - 1 {
            assert forall|i: int| 0 <= i < t.len() implies (#[trigger] t[i]).key != key by {
                assert(s[i] == t[i]);
            }
            lemma_without_key(t, key, t.len() as int);
            assert(s.remove(k) =~= t);
        } else if k < s.len() - 1 {
            assert(t[k] == s[k]);
            assert(s[s.len() - 1].key != s[k].key);
            lemma_without_key(t, key, k);
            assert(s.remove(k) =~= t.remove(k).push(s.last()));
        } else {
            assert forall|i: int| 0 <= i < t.len() implies (#[trigger] t[i]).key != key by {
                assert(s[i] == t[i]);
            }
            lemma_without_key(t, key, t.len() as int);
            assert(s[s.len() - 1].key != key);
            assert(s =~= t.push(s.last()));
        }
    }
}

/// The newest entry stays when a list is trimmed, unless it alone is too large.
proof fn lemma_newest_stays(
    before: Seq<CacheEntry>,
    after: Seq<CacheEntry>,
    gone: Seq<CacheEntry>,
    k: int,
)
    requires
        is_trimmed(before, after, gone),
        0 <= k < before.len(),
        before[k].data@.len() <= TARGET_BYTES,
        forall|i: int|
            0 <= i < before.len() && i != k ==> (#[trigger] before[i]).inserted_at
                < before[k].inserted_at,
    ensures
        after.contains(before[k]),
{
    broadcast use vstd::seq_lib::group_to_multiset_ensures;
    broadcast use vstd::multiset::group_multiset_axioms;

    let e = before[k];
    assert(before.contains(e));
    assert(before.to_multiset().count(e) > 0);
    if !after.contains(e) {
        assert(gone.to_multiset().count(e) > 0);
        assert(gone.contains(e));
        let g = choose|g: int| 0 <= g < gone.len() && gone[g] == e;
        if after.len() > 0 {
            let a = after[0];
            assert(gone[g].inserted_at <= after[0].inserted_at);
            assert(after.contains(a));
            assert(after.to_multiset().count(a) > 0);
            assert(before.to_multiset().count(a) > 0);
            assert(before.contains(a));
            let b = choose|b: int| 0 <= b < before.len() && before[b] == a;
            assert(b != k);
            assert(before[b].inserted_at < e.inserted_at);
        } else {
            let l = gone.last();
            assert(gone.contains(l));
            assert(gone.to_multiset().count(l) > 0);
            assert(before.to_multiset().count(l) > 0);
            assert(before.contains(l));
            let b = choose|b: int| 0 <= b < before.len() && before[b] == l;
            if g < gone.len() - 1 {
                assert(gone[g].inserted_at <= gone[gone.len() - 1].inserted_at);
            }
            assert(b == k);
            assert(size_of_entries(after) == 0);
        }
        assert(false);
    }
}

/// `after` is what a cache holds once a picture was put into it: the picture in place
/// of the one with its key, and where that is too much, without what is too old and
/// then without the oldest.
pub open spec fn is_put(
    before: Seq<CacheEntry>,
    key: (i64, i32),
    data: Seq<u8>,
    now: u64,
    after: Seq<CacheEntry>,
) -> bool {
    exists|e: CacheEntry|
        e.key == key && e.data@ == data && e.inserted_at == now && {
            let with = #[trigger] without_key(before, key).push(e);
            if size_of_entries(with) <= MAX_BYTES {
                after == with
            } else {
                exists|gone: Seq<CacheEntry>| #[trigger] is_trimmed(live(with, now), after, gone)
            }
        }
}

/// A picture that was put into a cache is found there, where all others came before it
/// and it is not too large.
pub proof fn lemma_put_is_found(
    before: Seq<CacheEntry>,
    key: (i64, i32),
    data: Seq<u8>,
    now: u64,
    after: Seq<CacheEntry>,
)
    requires
        keys_differ(before),
        keys_differ(after),
        is_put(before, key, data, now, after),
        data.len() <= TARGET_BYTES,
        forall|i: int| 0 <= i < before.len() ==> (#[trigger] before[i]).inserted_at < now,
    ensures
        lookup(after, key) == Some(data),
{
    let e = choose|e: CacheEntry|
        e.key == key && e.data@ == data && e.inserted_at == now && {
            let with = #[trigger] without_key(before, key).push(e);
            if size_of_entries(with) <= MAX_BYTES {
                after == with
            } else {
                exists|gone: Seq<CacheEntry>| #[trigger] is_trimmed(live(with, now), after, gone)
            }
        };
    let rest = without_key(before, key);
    let with = rest.push(e);
    lemma_filtered(before, |x: CacheEntry| x.key != key);
    if size_of_entries(with) <= MAX_BYTES {
        lemma_lookup(after, with.len() - 1);
    } else {
        let s = live(with, now);
        let p = |x: CacheEntry| !is_expired(x, now);
        let gone = choose|gone: Seq<CacheEntry>| #[trigger] is_trimmed(s, after, gone);
        assert forall|i: int, j: int| 0 <= i < j < with.len() implies (#[trigger] with[i]).key != (
        #[trigger] with[j]).key by {
            assert(with[i] == rest[i]);
            if j < rest.len() {
                assert(with[j] == rest[j]);
            }
        }
        lemma_filtered(with, p);
        reveal(Seq::filter);
        assert(with.drop_last() =~= rest);
        assert(s.last() == e);
        let k = s.len() - 1;
        assert forall|i: int| 0 <= i < s.len() && i != k implies (#[trigger] s[i]).inserted_at
            < s[k].inserted_at by {
            assert(s[i].key != s[k].key);
            assert(with.contains(s[i]));
            let w = choose|w: int| 0 <= w < with.len() && with[w] == s[i];
            assert(w < rest.len());
            assert(rest[w] == s[i]);
            assert(before.contains(rest[w]));
            let b = choose|b: int| 0 <= b < before.len() && before[b] == rest[w];
            assert(before[b].inserted_at < now);
        }
        lemma_newest_stays(s, after, gone, k);
        let a = choose|a: int| 0 <= a < after.len() && after[a] == s[k];
        lemma_lookup(after, a);
    }
}

impl ThumbnailCache {
    /// Puts a picture into the cache. A vector never holds more than `isize::MAX` bytes.
    pub fn insert(&mut self, key: (i64, i32), data: Vec<u8>, now: u64)
        requires
            old(self).well_formed(),
            data@.len() <= isize::MAX,
        ensures
            final(self).well_formed(),
            is_put(old(self)@, key, data@, now, final(self)@),
    {
        let ghost before = self@;
        let mut i: usize = 0;
        while i < self.entries.len() && !(self.entries[i].key.0 == key.0 && self.entries[i].key.1
            == key.1)
            invariant
                i <= self.entries@.len(),
                self@ == before,
                self.well_formed(),
                forall|j: int| 0 <= j < i ==> (#[trigger] self.entries@[j]).key != key,
            decreases self.entries@.len() - i,
        {
            i = i + 1;
        }
        proof {
            lemma_without_key(before, key, i as int);
            lemma_filtered(before, |e: CacheEntry| e.key != key);
        }
        if i < self.entries.len() {
            proof {
                lemma_size_removed(before, i as int);
            }
            let previous = self.entries.remove(i);
            self.total_bytes = self.total_bytes - previous.data.len() as u64;
        }
        let entry = CacheEntry { key, data, inserted_at: now };
        let ghost rest = self@;
        let ghost e = entry;
        proof {
            assert(rest == without_key(before, key));
            let with = rest.push(e);
            assert(with.drop_last() =~= rest);
            assert forall|a: int, b: int| 0 <= a < b < with.len() implies (#[trigger] with[a]).key
                != (#[trigger] with[b]).key by {
                assert(with[a] == rest[a]);
                if b < rest.len() {
                    assert(with[b] == rest[b]);
                }
            }
        }
        self.total_bytes = self.total_bytes + entry.data.len() as u64;
        self.entries.push(entry);
        let ghost with = self@;
        proof {
            assert(with == without_key(before, key).push(e));
        }
        if self.total_bytes > MAX_BYTES {
            self.evict_expired(now);
            self.evict_to_target();
        }
    }
}

proof fn lemma_prefix(s: Seq<CacheEntry>, n: int)
    requires
        0 <= n <= s.len(),
        keys_differ(s),
    ensures
        keys_differ(s.take(n)),
        0 <= size_of_entries(s.take(n)) <= size_of_entries(s),
    decreases s.len(),
{
    let t = s.take(n);
    assert forall|i: int, j: int| 0 <= i < j < t.len() implies (#[trigger] t[i]).key != (
    #[trigger] t[j]).key by {
        assert(s[i] == t[i] && s[j] == t[j]);
    }
    lemma_size_nonneg(t);
    if n < s.len() {
        let front = s.drop_last();
        assert forall|i: int, j: int| 0 <= i < j < front.len() implies (#[trigger] front[i]).key
            != (#[trigger] front[j]).key by {
            assert(s[i] == front[i] && s[j] == front[j]);
        }
        lemma_prefix(front, n);
        assert(front.take(n) =~= t);
    } else {
        assert(t =~= s);
    }
}

/// An entry that is moved from one list to the other stays among both.
proof fn lemma_moved(s: Seq<CacheEntry>, gone: Seq<CacheEntry>, k: int)
    requires
        0 <= k < s.len(),
    ensures
        s.remove(k).to_multiset().add(gone.push(s[k]).to_multiset()) == s.to_multiset().add(
            gone.to_multiset(),
        ),
{
    broadcast use vstd::seq_lib::group_to_multiset_ensures;
    broadcast use vstd::multiset::group_multiset_axioms;

    assert(s.remove(k).to_multiset() =~= s.to_multiset().remove(s[k]));
    assert(gone.push(s[k]).to_multiset() =~= gone.to_multiset().insert(s[k]));
    assert(s.contains(s[k]));
    assert(s.to_multiset().count(s[k]) > 0);
    assert(s.remove(k).to_multiset().add(gone.push(s[k]).to_multiset()) =~= s.to_multiset().add(
        gone.to_multiset(),
    ));
}

// ------------------------------------------------------------ where a thumbnail is

/// The first of the smallest sizes of a picture.
pub open spec fn least_size(sizes: Seq<PhotoSize>) -> Option<(String, i32)>
    decreases sizes.len(),
{
    if sizes.len() == 0 {
        None
    } else {
        let before = least_size(sizes.drop_last());
        match sizes.last() {
            PhotoSize::Size { kind, size } => match before {
                Some((_, least)) => if size < least {
                    Some((kind, size))
                } else {
                    before
                },
                None => Some((kind, size)),
            },
            PhotoSize::Other => before,
        }
    }
}

fn find_least_size(sizes: &Vec<PhotoSize>) -> (r: Option<(String, i32)>)
    ensures
        r == least_size(sizes@),
{
    let mut least: Option<(String, i32)> = None;
    let mut i: usize = 0;
    while i < sizes.len()
        invariant
            i <= sizes@.len(),
            least == least_size(sizes@.take(i as int)),
        decreases sizes@.len() - i,
    {
        proof {
            assert(sizes@.take(i + 1).drop_last() =~= sizes@.take(i as int));
        }
        if let PhotoSize::Size { kind, size } = &sizes[i] {
            let better = match &least {
                Some((_, s)) => *size < *s,
                None => true,
            };
            if better {
                least = Some((kind.clone(), *size));
            }
        }
        i = i + 1;
    }
    proof {
        assert(sizes@.take(i as int) =~= sizes@);
    }
    least
}

/// `r` is where the thumbnail of some media is, and its size: the smallest size of a
/// photo, or the smallest picture that comes with a document.
pub open spec fn thumbnail_matches(media: MessageMedia, r: Option<(FileLocation, u64)>) -> bool {
    match media {
        MessageMedia::Photo(Some(Photo::Photo(p))) => match least_size(p.sizes@) {
            None => r is None,
            Some((kind, size)) => r matches Some((location, bytes)) && {
                &&& location matches FileLocation::Photo {
                    id,
                    access_hash,
                    file_reference,
                    thumb_size,
                } && id == p.id && access_hash == p.access_hash && file_reference@
                    == p.file_reference@ && thumb_size@ == kind@
                &&& bytes == as_unsigned(size as int)
            },
        },
        MessageMedia::Document(Some(Document::Document(d))) => match d.thumbs {
            None => r is None,
            Some(thumbs) => match least_size(thumbs@) {
                None => r is None,
                Some((kind, size)) => r matches Some((location, bytes)) && {
                    &&& location matches FileLocation::Document {
                        id,
                        access_hash,
                        file_reference,
                        thumb_size,
                    } && id == d.id && access_hash == d.access_hash && file_reference@
                        == d.file_reference@ && thumb_size@ == kind@
                    &&& bytes == as_unsigned(size as int)
                },
            },
        },
        _ => r is None,
    }
}

/// Where the thumbnail of some media is, and its size.
pub fn extract_thumbnail_location(media: &MessageMedia) -> (r: Option<(FileLocation, u64)>)
    ensures
        thumbnail_matches(*media, r),
{
    match media {
        MessageMedia::Photo(Some(Photo::Photo(p))) => {
            match find_least_size(&p.sizes) {
                None => None,
                Some((kind, size)) => Some(
                    (
                        FileLocation::Photo {
                            id: p.id,
                            access_hash: p.access_hash,
                            file_reference: p.file_reference.clone(),
                            thumb_size: kind,
                        },
                        unsigned_bits(size as i64),
                    ),
                ),
            }
        },
        MessageMedia::Document(Some(Document::Document(d))) => {
            let thumbs = match &d.thumbs {
                Some(t) => t,
                None => return None,
            };
            match find_least_size(thumbs) {
                None => None,
                Some((kind, size)) => Some(
                    (
                        FileLocation::Document {
                            id: d.id,
                            access_hash: d.access_hash,
                            file_reference: d.file_reference.clone(),
                            thumb_size: kind,
                        },
                        unsigned_bits(size as i64),
                    ),
                ),
            }
        },
        _ => None,
    }
}

/// A file that is being downloaded into memory.
pub struct MemoryDownload {
    pub data: Vec<u8>,
}

impl MemoryDownload {
    pub fn new() -> (r: MemoryDownload)
        ensures
            r.data@.len() == 0,
    {
        MemoryDownload { data: Vec::new() }
    }

    /// Where the next chunk begins: behind what is at hand.
    pub fn offset(&self) -> (r: i64)
        requires
            self.data@.len() <= i64::MAX,
        ensures
            r == self.data@.len(),
    {
        self.data.len() as i64
    }

    /// Appends a chunk that came.
    pub fn take_chunk(&mut self, bytes: Vec<u8>) -> (r: ChunkStep)
        requires
            bytes@.len() <= i32::MAX,
        ensures
            r == chunk_step(bytes@.len() as int),
            final(self).data@ == old(self).data@ + bytes@,
    {
        let len = bytes.len();
        let mut more = bytes;
        self.data.append(&mut more);
        if len == 0 {
            ChunkStep::End
        } else if len < MAX_CHUNK_SIZE as usize {
            ChunkStep::WriteLast
        } else {
            ChunkStep::WriteMore
        }
    }
}

/// What is at hand once an honest service has answered for all chunks from `at` on.
pub open spec fn memory_after(file: Seq<u8>, at: Seq<u8>) -> Seq<u8>
    decreases file.len() - at.len(),
{
    let chunk = chunk_at(file, at.len() as int);
    match chunk_step(chunk.len() as int) {
        ChunkStep::End => at,
        ChunkStep::WriteLast => at + chunk,
        ChunkStep::WriteMore => memory_after(file, at + chunk),
    }
}

/// A download into memory from an honest service gives the file.
pub proof fn lemma_memory_download_gives_the_file(file: Seq<u8>, at: Seq<u8>)
    requires
        at.len() <= file.len(),
        at == file.take(at.len() as int),
    ensures
        memory_after(file, at) == file,
    decreases file.len() - at.len(),
{
    let chunk = chunk_at(file, at.len() as int);
    if at.len() < file.len() {
        let next = at + chunk;
        assert(next =~= file.take(next.len() as int));
        if chunk.len() >= MAX_CHUNK_SIZE {
            lemma_memory_download_gives_the_file(file, next);
        } else {
            assert(next =~= file);
        }
    } else {
        assert(at =~= file);
    }
}

// ------------------------------------------------------------ a message's thumbnail

/// What a picture takes: nothing where it is at hand.
pub enum ThumbnailStep {
    Cached(Vec<u8>),
    Fetch(DownloadTarget),
}

/// Where a message's thumbnail comes from. The cache is asked first.
pub fn get_thumbnail(
    cache: &mut ThumbnailCache,
    session: &Session,
    chat_id: i64,
    chat_type: &str,
    message_id: i32,
    now: u64,
) -> (r: Result<ThumbnailStep, ApiError>)
    requires
        old(cache).well_formed(),
    ensures
        final(cache).well_formed(),
        final(cache)@ == live(old(cache)@, now),
        match lookup(final(cache)@, (chat_id, message_id)) {
            Some(data) => r matches Ok(ThumbnailStep::Cached(v)) && v@ == data,
            None => if session.authenticated {
                r == Ok::<_, ApiError>(
                    ThumbnailStep::Fetch(
                        DownloadTarget {
                            chat_id,
                            access_hash: session.hash(chat_id),
                            is_channel: is_channel_like(chat_type@, session.hash(chat_id)),
                            message_id,
                        },
                    ),
                )
            } else {
                r == Err::<ThumbnailStep, _>(ApiError::NotAuthenticated)
            },
        },
{
    let key = (chat_id, message_id);
    if let Some(data) = cache.get(&key, now) {
        return Ok(ThumbnailStep::Cached(data));
    }
    let target = download_media(session, chat_id, chat_type, message_id)?;
    Ok(ThumbnailStep::Fetch(target))
}

// ------------------------------------------------------------ a chat's photo

/// How the photo of a chat is asked for.
#[derive(Debug, Clone, Copy, PartialEq, Eq, Structural)]
pub enum PhotoRequest {
    User { user_id: i64, access_hash: i64 },
    Channel(InputChannel),
    Chat { chat_id: i64 },
}

pub open spec fn photo_request(chat_id: i64, chat_type: Seq<char>, access_hash: i64) -> PhotoRequest {
    if chat_type == "private"@ {
        PhotoRequest::User { user_id: chat_id, access_hash }
    } else if access_hash != 0 {
        PhotoRequest::Channel(InputChannel { channel_id: chat_id, access_hash })
    } else {
        PhotoRequest::Chat { chat_id }
    }
}

/// How the photo of a chat is asked for.
pub fn fetch_chat_photo_id(chat_id: i64, chat_type: &str, access_hash: i64) -> (r: PhotoRequest)
    ensures
        r == photo_request(chat_id, chat_type@, access_hash),
{
    if same_text(chat_type, "private") {
        PhotoRequest::User { user_id: chat_id, access_hash }
    } else if access_hash != 0 {
        PhotoRequest::Channel(InputChannel { channel_id: chat_id, access_hash })
    } else {
        PhotoRequest::Chat { chat_id }
    }
}

/// The photo of a user with an id.
pub open spec fn photo_of_user(user: User, id: i64) -> Option<i64> {
    match user {
        User::User(u) if u.id == id => u.photo_id,
        _ => None,
    }
}

/// The photo of a chat that was asked for.
pub open spec fn photo_of_chat(chat: Chat, request: PhotoRequest) -> Option<i64> {
    match (request, chat) {
        (PhotoRequest::Channel(ch), Chat::Channel(c)) => if c.id == ch.channel_id {
            c.photo_id
        } else {
            None
        },
        (PhotoRequest::Chat { chat_id }, Chat::Chat(c)) => if c.id == chat_id {
            c.photo_id
        } else {
            None
        },
        _ => None,
    }
}

pub open spec fn first_user_photo(users: Seq<User>, id: i64) -> Option<i64>
    decreases users.len(),
{
    if users.len() == 0 {
        None
    } else if photo_of_user(users[0], id) is Some {
        photo_of_user(users[0], id)
    } else {
        first_user_photo(users.drop_first(), id)
    }
}

pub open spec fn first_chat_photo(chats: Seq<Chat>, request: PhotoRequest) -> Option<i64>
    decreases chats.len(),
{
    if chats.len() == 0 {
        None
    } else if photo_of_chat(chats[0], request) is Some {
        photo_of_chat(chats[0], request)
    } else {
        first_chat_photo(chats.drop_first(), request)
    }
}

/// Reads the photo of a user out of a reply.
pub fn user_photo_id(users: &Vec<User>, id: i64) -> (r: Result<i64, String>)
    ensures
        match first_user_photo(users@, id) {
            Some(p) => r == Ok::<i64, String>(p),
            None => r matches Err(e) && e@ == "User has no photo"@,
        },
{
    let mut i: usize = 0;
    proof {
        assert(users@.skip(0) =~= users@);
    }
    while i < users.len()
        invariant
            i <= users@.len(),
            first_user_photo(users@, id) == first_user_photo(users@.skip(i as int), id),
        decreases users@.len() - i,
    {
        proof {
            assert(users@.skip(i as int).drop_first() =~= users@.skip(i + 1));
        }
        if let User::User(u) = &users[i] {
            if u.id == id {
                if let Some(p) = u.photo_id {
                    return Ok(p);
                }
            }
        }
        i = i + 1;
    }
    Err("User has no photo".to_owned())
}

/// What is reported where a chat has no photo.
pub open spec fn no_photo_text(request: PhotoRequest) -> Seq<char> {
    match request {
        PhotoRequest::User { .. } => "User has no photo"@,
        PhotoRequest::Channel(_) => "Channel has no photo"@,
        PhotoRequest::Chat { .. } => "Chat has no photo"@,
    }
}

/// Reads the photo of the chat that was asked for out of a reply.
pub fn chat_photo_id(chats: &Vec<Chat>, request: &PhotoRequest) -> (r: Result<i64, String>)
    ensures
        match first_chat_photo(chats@, *request) {
            Some(p) => r == Ok::<i64, String>(p),
            None => r matches Err(e) && e@ == no_photo_text(*request),
        },
{
    let mut i: usize = 0;
    proof {
        assert(chats@.skip(0) =~= chats@);
    }
    while i < chats.len()
        invariant
            i <= chats@.len(),
            first_chat_photo(chats@, *request) == first_chat_photo(chats@.skip(i as int), *request),
        decreases chats@.len() - i,
    {
        proof {
            assert(chats@.skip(i as int).drop_first() =~= chats@.skip(i + 1));
        }
        match (request, &chats[i]) {
            (PhotoRequest::Channel(ch), Chat::Channel(c)) => if c.id == ch.channel_id {
                if let Some(p) = c.photo_id {
                    return Ok(p);
                }
            },
            (PhotoRequest::Chat { chat_id }, Chat::Chat(c)) => if c.id == *chat_id {
                if let Some(p) = c.photo_id {
                    return Ok(p);
                }
            },
            _ => {},
        }
        i = i + 1;
    }
    let text = match request {
        PhotoRequest::User { .. } => "User has no photo",
        PhotoRequest::Channel(_) => "Channel has no photo",
        PhotoRequest::Chat { .. } => "Chat has no photo",
    };
    Err(text.to_owned())
}

/// What the photo of a chat takes: nothing where it is at hand.
pub enum ChatPhotoStep {
    Cached(Vec<u8>),
    Ask { peer: InputPeer, request: PhotoRequest },
}

/// Where a chat's photo comes from. The cache is asked first.
pub fn get_chat_photo(
    cache: &mut ThumbnailCache,
    session: &Session,
    chat_id: i64,
    chat_type: &str,
    now: u64,
) -> (r: Result<ChatPhotoStep, ApiError>)
    requires
        old(cache).well_formed(),
    ensures
        final(cache).well_formed(),
        final(cache)@ == live(old(cache)@, now),
        match lookup(final(cache)@, (chat_id, 0i32)) {
            Some(data) => r matches Ok(ChatPhotoStep::Cached(v)) && v@ == data,
            None => if session.authenticated {
                r == Ok::<_, ApiError>(
                    ChatPhotoStep::Ask {
                        peer: target(*session, chat_id, chat_type@),
                        request: photo_request(chat_id, chat_type@, session.hash(chat_id)),
                    },
                )
            } else {
                r == Err::<ChatPhotoStep, _>(ApiError::NotAuthenticated)
            },
        },
{
    let key = (chat_id, 0i32);
    if let Some(data) = cache.get(&key, now) {
        return Ok(ChatPhotoStep::Cached(data));
    }
    if !session.authenticated {
        return Err(ApiError::NotAuthenticated);
    }
    let access_hash = session.peer_hashes.get_or_zero(chat_id);
    Ok(
        ChatPhotoStep::Ask {
            peer: make_input_peer(chat_id, chat_type, access_hash),
            request: fetch_chat_photo_id(chat_id, chat_type, access_hash),
        },
    )
}

/// Where the bytes of a chat's photo are.
pub fn photo_location(peer: InputPeer, photo_id: i64) -> (r: FileLocation)
    ensures
        r == (FileLocation::PeerPhoto { peer, photo_id }),
{
    FileLocation::PeerPhoto { peer, photo_id }
}

// ------------------------------------------------------------ laws of pictures

/// A picture is too old from two minutes and one second on.
pub proof fn lemma_when_pictures_expire(e: CacheEntry, now: u64)
    ensures
        is_expired(e, now) <==> now >= e.inserted_at + 121_000_000_000,
{
}

/// Exactly the pictures that are not too old live on.
pub proof fn lemma_live_pictures(s: Seq<CacheEntry>, now: u64, e: CacheEntry)
    ensures
        live(s, now).contains(e) <==> s.contains(e) && now < e.inserted_at + 121_000_000_000,
{
    broadcast use vstd::seq_lib::group_filter_ensures;

    let p = |x: CacheEntry| !is_expired(x, now);
    let kept = live(s, now);
    if kept.contains(e) {
        let k = choose|k: int| 0 <= k < kept.len() && kept[k] == e;
        assert(p(kept[k]));
        lemma_kept_is_one(s, p, k);
    }
    if s.contains(e) && p(e) {
        assert(kept.contains(e));
    }
}

proof fn lemma_kept_is_one(s: Seq<CacheEntry>, p: spec_fn(CacheEntry) -> bool, k: int)
    requires
        0 <= k < s.filter(p).len(),
    ensures
        s.contains(s.filter(p)[k]),
    decreases s.len(),
{
    reveal(Seq::filter);
    if s.len() > 0 {
        let t = s.drop_last();
        if k < t.filter(p).len() {
            lemma_kept_is_one(t, p, k);
            let j = choose|j: int| 0 <= j < t.len() && t[j] == t.filter(p)[k];
            assert(s[j] == t[j]);
        } else {
            assert(s[s.len() - 1] == s.filter(p)[k]);
        }
    }
}

/// The bytes of two runs of pictures add up, and one picture counts its bytes.
pub proof fn lemma_picture_sizes_add_up(a: Seq<CacheEntry>, b: Seq<CacheEntry>, e: CacheEntry)
    ensures
        size_of_entries(a + b) == size_of_entries(a) + size_of_entries(b),
        size_of_entries(seq![e]) == e.data@.len(),
    decreases b.len(),
{
    assert(seq![e].drop_last() =~= Seq::<CacheEntry>::empty());
    assert(size_of_entries(Seq::empty()) == 0);
    if b.len() == 0 {
        assert(a + b =~= a);
    } else {
        lemma_picture_sizes_add_up(a, b.drop_last(), e);
        assert((a + b).drop_last() =~= a + b.drop_last());
    }
}

/// A picture is found by its key, and nothing by a key that no picture has.
pub proof fn lemma_pictures_are_found(s: Seq<CacheEntry>, k: int, key: (i64, i32))
    requires
        keys_differ(s),
        0 <= k < s.len(),
    ensures
        lookup(s, s[k].key) == Some(s[k].data@),
        (forall|i: int| 0 <= i < s.len() ==> (#[trigger] s[i]).key != key) ==> lookup(s, key)
            is None,
{
    lemma_lookup(s, k);
    if forall|i: int| 0 <= i < s.len() ==> (#[trigger] s[i]).key != key {
        lemma_lookup_none(s, key);
    }
}

/// A picture that is put into a cache drives no other out as long as all of them fit into
/// thirty mebibytes.
pub proof fn lemma_other_pictures_stay(
    before: Seq<CacheEntry>,
    key: (i64, i32),
    data: Seq<u8>,
    now: u64,
    after: Seq<CacheEntry>,
    i: int,
)
    requires
        keys_differ(before),
        keys_differ(after),
        is_put(before, key, data, now, after),
        size_of_entries(before) + data.len() <= 31_457_280,
        0 <= i < before.len(),
        before[i].key != key,
    ensures
        after.contains(before[i]),
        lookup(after, before[i].key) == Some(before[i].data@),
        lookup(after, key) == Some(data),
{
    broadcast use vstd::seq_lib::group_filter_ensures;

    let p = |x: CacheEntry| x.key != key;
    let rest = without_key(before, key);
    lemma_filtered(before, p);
    let e = choose|e: CacheEntry|
        e.key == key && e.data@ == data && e.inserted_at == now && {
            let with = #[trigger] without_key(before, key).push(e);
            if size_of_entries(with) <= MAX_BYTES {
                after == with
            } else {
                exists|gone: Seq<CacheEntry>| #[trigger] is_trimmed(live(with, now), after, gone)
            }
        };
    let with = rest.push(e);
    assert(with.drop_last() =~= rest);
    assert(size_of_entries(with) == size_of_entries(rest) + data.len());
    assert(after == with);
    assert(p(before[i]));
    assert(rest.contains(before[i]));
    let k = choose|k: int| 0 <= k < rest.len() && rest[k] == before[i];
    assert(after[k] == before[i]);
    lemma_lookup(after, k);
    assert(after[after.len() - 1] == e);
    lemma_lookup(after, after.len() - 1);
}

/// Where pictures have to go, what stays fits into twenty-two and a half mebibytes and is no
/// older than what goes, and nothing goes that could have stayed.
pub proof fn lemma_oldest_pictures_go(
    before: Seq<CacheEntry>,
    after: Seq<CacheEntry>,
    gone: Seq<CacheEntry>,
)
    requires
        is_trimmed(before, after, gone),
    ensures
        size_of_entries(after) <= 23_592_960,
        gone.len() > 0 ==> size_of_entries(after) + gone.last().data@.len() > 23_592_960,
        forall|i: int, j: int|
            0 <= i < gone.len() && 0 <= j < after.len() ==> (#[trigger] gone[i]).inserted_at <= (
            #[trigger] after[j]).inserted_at,
        forall|i: int| 0 <= i < after.len() ==> before.contains(#[trigger] after[i]),
        forall|i: int|
            0 <= i < before.len() ==> after.contains(#[trigger] before[i]) || gone.contains(
                before[i],
            ),
{
    broadcast use vstd::seq_lib::group_to_multiset_ensures;
    broadcast use vstd::multiset::group_multiset_axioms;

    assert forall|i: int| 0 <= i < after.len() implies before.contains(#[trigger] after[i]) by {
        assert(after.contains(after[i]));
        assert(after.to_multiset().count(after[i]) > 0);
        assert(before.to_multiset().count(after[i]) > 0);
    }
    assert forall|i: int| 0 <= i < before.len() implies after.contains(#[trigger] before[i])
        || gone.contains(before[i]) by {
        assert(before.contains(before[i]));
        assert(before.to_multiset().count(before[i]) > 0);
    }
}

/// The size that is shown as a thumbnail is one of the sizes, none of them is smaller, and
/// none before it is as small. There is none only where there are no sizes.
pub proof fn lemma_least_size_is_smallest(sizes: Seq<PhotoSize>)
    ensures
        least_size(sizes) is None <==> forall|i: int|
            0 <= i < sizes.len() ==> #[trigger] sizes[i] is Other,
        least_size(sizes) matches Some((least, bytes)) ==> exists|k: int|
            {
                &&& 0 <= k < sizes.len()
                &&& #[trigger] sizes[k] == (PhotoSize::Size { kind: least, size: bytes })
                &&& forall|i: int|
                    0 <= i < sizes.len() ==> (#[trigger] sizes[i] matches PhotoSize::Size {
                        size,
                        ..
                    } ==> size >= bytes && (i < k ==> size > bytes))
            },
    decreases sizes.len(),
{
    if sizes.len() > 0 {
        let front = sizes.drop_last();
        let n = front.len() as int;
        lemma_least_size_is_smallest(front);
        assert(forall|i: int| 0 <= i < n ==> #[trigger] front[i] == sizes[i]);
        assert(sizes[n] == sizes.last());
        if least_size(sizes) is None {
            assert forall|i: int| 0 <= i < sizes.len() implies #[trigger] sizes[i] is Other by {
                if i < n {
                    assert(front[i] == sizes[i]);
                }
            }
        } else {
            let (least, bytes) = least_size(sizes)->0;
            if least_size(front) is Some {
                let (fl, fb) = least_size(front)->0;
                let k = choose|k: int|
                    {
                        &&& 0 <= k < front.len()
                        &&& #[trigger] front[k] == (PhotoSize::Size { kind: fl, size: fb })
                        &&& forall|i: int|
                            0 <= i < front.len() ==> (#[trigger] front[i] matches PhotoSize::Size {
                                size,
                                ..
                            } ==> size >= fb && (i < k ==> size > fb))
                    };
                assert(!(sizes[k] is Other));
                let at = if bytes == fb {
                    k
                } else {
                    n
                };
                assert(sizes[at] == (PhotoSize::Size { kind: least, size: bytes }));
                assert forall|i: int| 0 <= i < sizes.len() implies (
                #[trigger] sizes[i] matches PhotoSize::Size { size, .. } ==> size >= bytes && (i
                    < at ==> size > bytes)) by {
                    if i < n {
                        assert(front[i] == sizes[i]);
                    }
                }
            } else {
                assert(sizes[n] == (PhotoSize::Size { kind: least, size: bytes }));
                assert forall|i: int| 0 <= i < sizes.len() implies (
                #[trigger] sizes[i] matches PhotoSize::Size { size, .. } ==> size >= bytes && (i
                    < n ==> size > bytes)) by {
                    if i < n {
                        assert(front[i] == sizes[i]);
                    }
                }
            }
        }
    }
}

/// The photo of a user is asked for as that of a user, and that of any other chat as that of
/// a channel exactly where it has an access hash.
pub proof fn lemma_photo_requests(chat_id: i64, chat_type: Seq<char>, access_hash: i64)
    ensures
        match photo_request(chat_id, chat_type, access_hash) {
            PhotoRequest::User { user_id, access_hash: h } => chat_type == "private"@ && user_id
                == chat_id && h == access_hash,
            PhotoRequest::Channel(c) => chat_type != "private"@ && access_hash != 0 && c.channel_id
                == chat_id && c.access_hash == access_hash,
            PhotoRequest::Chat { chat_id: c } => chat_type != "private"@ && access_hash == 0 && c
                == chat_id,
        },
{
}

/// The photo of a user is that of the first user with the number who has one.
pub proof fn lemma_first_user_photo(users: Seq<User>, id: i64, k: int)
    requires
        0 <= k < users.len(),
        users[k] matches User::User(u) && u.id == id && u.photo_id is Some,
        forall|i: int|
            0 <= i < k ==> (#[trigger] users[i] matches User::User(u) ==> u.id != id || u.photo_id
                is None),
    ensures
        users[k] matches User::User(u) && first_user_photo(users, id) == u.photo_id,
    decreases k,
{
    if k > 0 {
        let rest = users.drop_first();
        assert(users[0] matches User::User(u) ==> u.id != id || u.photo_id is None);
        assert forall|i: int| 0 <= i < k - 1 implies (#[trigger] rest[i] matches User::User(u)
            ==> u.id != id || u.photo_id is None) by {
            assert(rest[i] == users[i + 1]);
        }
        lemma_first_user_photo(rest, id, k - 1);
    }
}

/// The photo of a channel is that of the first channel with the number that has one.
pub proof fn lemma_first_channel_photo(chats: Seq<Chat>, channel: InputChannel, k: int)
    requires
        0 <= k < chats.len(),
        chats[k] matches Chat::Channel(c) && c.id == channel.channel_id && c.photo_id is Some,
        forall|i: int|
            0 <= i < k ==> (#[trigger] chats[i] matches Chat::Channel(c) ==> c.id
                != channel.channel_id || c.photo_id is None),
    ensures
        chats[k] matches Chat::Channel(c) && first_chat_photo(chats, PhotoRequest::Channel(channel))
            == c.photo_id,
    decreases k,
{
    if k > 0 {
        let rest = chats.drop_first();
        assert(chats[0] matches Chat::Channel(c) ==> c.id != channel.channel_id || c.photo_id
            is None);
        assert forall|i: int| 0 <= i < k - 1 implies (#[trigger] rest[i] matches Chat::Channel(c)
            ==> c.id != channel.channel_id || c.photo_id is None) by {
            assert(rest[i] == chats[i + 1]);
        }
        lemma_first_channel_photo(rest, channel, k - 1);
    }
}

/// The photo of a basic group is that of the first group with the number that has one.
pub proof fn lemma_first_group_photo(chats: Seq<Chat>, chat_id: i64, k: int)
    requires
        0 <= k < chats.len(),
        chats[k] matches Chat::Chat(c) && c.id == chat_id && c.photo_id is Some,
        forall|i: int|
            0 <= i < k ==> (#[trigger] chats[i] matches Chat::Chat(c) ==> c.id != chat_id
                || c.photo_id is None),
    ensures
        chats[k] matches Chat::Chat(c) && first_chat_photo(chats, PhotoRequest::Chat { chat_id })
            == c.photo_id,
    decreases k,
{
    if k > 0 {
        let rest = chats.drop_first();
        assert(chats[0] matches Chat::Chat(c) ==> c.id != chat_id || c.photo_id is None);
        assert forall|i: int| 0 <= i < k - 1 implies (#[trigger] rest[i] matches Chat::Chat(c)
            ==> c.id != chat_id || c.photo_id is None) by {
            assert(rest[i] == chats[i + 1]);
        }
        lemma_first_group_photo(rest, chat_id, k - 1);
    }
}

/// A thumbnail belongs to its own photo or document.
pub proof fn lemma_thumbnail_belongs_to_its_media(
    media: MessageMedia,
    r: Option<(FileLocation, u64)>,
)
    requires
        thumbnail_matches(media, r),
    ensures
        media matches MessageMedia::Photo(Some(Photo::Photo(p))) ==> {
            &&& r is Some <==> least_size(p.sizes@) is Some
            &&& r matches Some((location, _)) ==> (location matches FileLocation::Photo {
                id,
                access_hash,
                file_reference,
                thumb_size,
            } && id == p.id && access_hash == p.access_hash && file_reference@ == p.file_reference@
                && (least_size(p.sizes@) matches Some((kind, _)) && thumb_size@ == kind@))
        },
        media matches MessageMedia::Document(Some(Document::Document(d))) ==> {
            &&& d.thumbs is None ==> r is None
            &&& d.thumbs matches Some(thumbs) ==> (r is Some <==> least_size(thumbs@) is Some)
            &&& r matches Some((location, _)) ==> (location matches FileLocation::Document {
                id,
                access_hash,
                file_reference,
                ..
            } && id == d.id && access_hash == d.access_hash && file_reference@ == d.file_reference@)
        },
        !(media is Photo) && !(media is Document) ==> r is None,
{
}

/// A cache that became too full keeps the newest of its pictures: what goes is too old, or
/// no younger than anything that stays, and something of it would not have fitted.
pub proof fn lemma_full_cache_keeps_the_newest(
    before: Seq<CacheEntry>,
    key: (i64, i32),
    data: Seq<u8>,
    now: u64,
    after: Seq<CacheEntry>,
    i: int,
)
    requires
        keys_differ(before),
        is_put(before, key, data, now, after),
        0 <= i < before.len(),
        before[i].key != key,
        now < before[i].inserted_at + 121_000_000_000,
        !after.contains(before[i]),
    ensures
        size_of_entries(after) <= 23_592_960,
        forall|j: int|
            0 <= j < after.len() ==> before[i].inserted_at <= (#[trigger] after[j]).inserted_at,
        exists|gone: CacheEntry| #[trigger]
            size_of_entries(after.push(gone)) > 23_592_960 && !(before[i].inserted_at
                > gone.inserted_at),
{
    broadcast use vstd::seq_lib::group_filter_ensures;

    let p = |x: CacheEntry| x.key != key;
    let rest = without_key(before, key);
    let e = choose|e: CacheEntry|
        e.key == key && e.data@ == data && e.inserted_at == now && {
            let with = #[trigger] without_key(before, key).push(e);
            if size_of_entries(with) <= MAX_BYTES {
                after == with
            } else {
                exists|gone: Seq<CacheEntry>| #[trigger] is_trimmed(live(with, now), after, gone)
            }
        };
    let with = rest.push(e);
    assert(p(before[i]));
    assert(rest.contains(before[i]));
    let k = choose|k: int| 0 <= k < rest.len() && rest[k] == before[i];
    assert(with[k] == before[i]);
    assert(size_of_entries(with) > MAX_BYTES);
    let s = live(with, now);
    let gone = choose|gone: Seq<CacheEntry>| #[trigger] is_trimmed(s, after, gone);
    lemma_live_pictures(with, now, before[i]);
    assert(with.contains(before[i]));
    lemma_oldest_pictures_go(s, after, gone);
    let at = choose|at: int| 0 <= at < s.len() && s[at] == before[i];
    assert(after.contains(s[at]) || gone.contains(s[at]));
    let g = choose|g: int| 0 <= g < gone.len() && gone[g] == before[i];
    assert forall|j: int| 0 <= j < after.len() implies before[i].inserted_at <= (
    #[trigger] after[j]).inserted_at by {
        assert(gone[g].inserted_at <= after[j].inserted_at);
    }
    let last = gone.last();
    assert(after.push(last).drop_last() =~= after);
    assert(size_of_entries(after.push(last)) > 23_592_960);
    assert(gone[gone.len() - 1] == last);
    if g < gone.len() - 1 {
        assert(gone[g].inserted_at <= gone[gone.len() - 1].inserted_at);
    }
}

} // verus!
