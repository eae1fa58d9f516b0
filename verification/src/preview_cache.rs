//! Previews kept on disk: how their files are called, and which ones have to go.

use vstd::prelude::*;

use crate::paths::RelPath;
use crate::sort::{lemma_sorted_order, sort_descending, sorted, SortBy};
use crate::text::{chars_of, joined};

verus! {

pub const DEFAULT_MAX_FILES: usize = 30;

pub const DEFAULT_MAX_BYTES: u64 = 83_886_080;

/// How many files, and how many bytes, are kept.
pub struct PreviewDiskCache {
    pub max_files: usize,
    pub max_bytes: u64,
}

/// A character that stands for itself in a file name.
pub open spec fn is_safe(c: char) -> bool {
    ('0' <= c <= '9') || ('A' <= c <= 'Z') || ('a' <= c <= 'z') || c == '-' || c == '_'
}

/// A key with every other character replaced by an underscore.
pub open spec fn safe_name(key: Seq<char>) -> Seq<char> {
    key.map_values(
        |c: char|
            if is_safe(c) {
                c
            } else {
                '_'
            },
    )
}

impl PreviewDiskCache {
    pub fn new(max_files: usize, max_bytes: u64) -> (r: PreviewDiskCache)
        ensures
            r.max_files == max_files,
            r.max_bytes == max_bytes,
    {
        PreviewDiskCache { max_files, max_bytes }
    }

    /// The file of a key.
    pub fn path_for(&self, key: &str) -> (r: RelPath)
        ensures
            r@ == seq![safe_name(key@) + ".bin"@],
    {
        let cs = chars_of(key);
        let mut safe = String::new();
        let mut i: usize = 0;
        while i < cs.len()
            invariant
                i <= cs@.len(),
                safe@ =~= safe_name(cs@.take(i as int)),
            decreases cs@.len() - i,
        {
            let c = cs[i];
            let kept = ('0' <= c && c <= '9') || ('A' <= c && c <= 'Z') || ('a' <= c && c <= 'z')
                || c == '-' || c == '_';
            safe.push(
                if kept {
                    c
                } else {
                    '_'
                },
            );
            i = i + 1;
        }
        proof {
            assert(cs@.take(i as int) =~= key@);
        }
        let name = joined(safe.as_str(), ".bin");
        RelPath::one(name.as_str())
    }
}

/// A file's name never leaves its directory: it holds neither separators nor dots
/// beside the one of its extension.
pub proof fn lemma_names_are_safe(key: Seq<char>, i: int)
    requires
        0 <= i < safe_name(key).len(),
    ensures
        is_safe(safe_name(key)[i]),
        safe_name(key).len() == key.len(),
{
}

/// Safe keys keep their names, so that two of them never share a file.
pub proof fn lemma_safe_keys_keep_their_names(key: Seq<char>)
    requires
        forall|i: int| 0 <= i < key.len() ==> is_safe(#[trigger] key[i]),
    ensures
        safe_name(key) == key,
{
    assert(safe_name(key) =~= key);
}

// ------------------------------------------------------------ pruning

/// A file at hand, with its size and the moment of its last use in nanoseconds.
#[derive(Debug)]
pub struct PreviewFile {
    pub name: String,
    pub size: u64,
    pub used_at: i64,
}

/// Files that were not used for the longest time first.
pub struct OldestFirst;

impl SortBy<PreviewFile> for OldestFirst {
    open spec fn key(x: &PreviewFile) -> int {
        -(x.used_at as int)
    }

    fn key_of(x: &PreviewFile) -> (r: i128) {
        -(x.used_at as i128)
    }
}

pub open spec fn total_size(files: Seq<PreviewFile>) -> int
    decreases files.len(),
{
    if files.len() == 0 {
        0
    } else {
        total_size(files.drop_last()) + files.last().size
    }
}

/// The files that may go, and what is on disk.
pub struct Pruning {
    /// The files that were not tried yet, the newest first.
    pub rest: Vec<PreviewFile>,
    /// How many files are on disk.
    pub count: usize,
    /// How many bytes they hold.
    pub total: u64,
}

proof fn lemma_total(files: Seq<PreviewFile>, n: int)
    requires
        0 <= n <= files.len(),
    ensures
        0 <= total_size(files.take(n)) <= total_size(files),
    decreases files.len(),
{
    if n < files.len() {
        lemma_total(files.drop_last(), n);
        assert(files.drop_last().take(n) =~= files.take(n));
    } else {
        assert(files.take(n) =~= files);
        if files.len() > 0 {
            lemma_total(files.drop_last(), files.len() - 1);
            assert(files.drop_last().take(files.len() - 1) =~= files.drop_last());
        }
    }
}

/// Begins to prune the files that are on disk.
pub fn prune(files: Vec<PreviewFile>) -> (r: Pruning)
    requires
        total_size(files@) <= u64::MAX,
    ensures
        r.rest@ == sorted::<PreviewFile, OldestFirst>(files@).reverse(),
        r.count == files@.len(),
        r.total == total_size(files@),
{
    let ghost all = files@;
    let count = files.len();
    let mut total: u64 = 0;
    let mut i: usize = 0;
    while i < files.len()
        invariant
            i <= files@.len(),
            files@ == all,
            total_size(all) <= u64::MAX,
            total == total_size(all.take(i as int)),
        decreases files@.len() - i,
    {
        proof {
            lemma_total(all, i + 1);
            assert(all.take(i + 1).drop_last() =~= all.take(i as int));
        }
        total = total + files[i].size;
        i = i + 1;
    }
    proof {
        assert(all.take(i as int) =~= all);
    }
    let mut order = sort_descending::<PreviewFile, OldestFirst>(files);
    let ghost sorted_files = order@;
    let mut rest: Vec<PreviewFile> = Vec::new();
    proof {
        assert(sorted_files.skip(order@.len() as int).reverse() =~= Seq::empty());
    }
    while order.len() > 0
        invariant
            order@.len() <= sorted_files.len(),
            order@ == sorted_files.take(order@.len() as int),
            rest@ == sorted_files.skip(order@.len() as int).reverse(),
        decreases order@.len(),
    {
        let ghost before = order@;
        if let Some(file) = order.pop() {
            rest.push(file);
            proof {
                let n = order@.len() as int;
                assert(file == sorted_files[n]);
                assert(order@ =~= sorted_files.take(n));
                assert(rest@ =~= sorted_files.skip(n).reverse());
            }
        }
    }
    proof {
        assert(sorted_files.skip(0) =~= sorted_files);
    }
    Pruning { rest, count, total }
}

/// There are more files, or more bytes, than are kept.
pub open spec fn is_over(cache: PreviewDiskCache, count: int, total: int) -> bool {
    count > cache.max_files || total > cache.max_bytes
}

impl Pruning {
    /// The next file to remove: the oldest one that was not tried, while there is too
    /// much on disk.
    pub fn prune_locked(&mut self, cache: &PreviewDiskCache) -> (r: Option<PreviewFile>)
        ensures
            final(self).count == old(self).count,
            final(self).total == old(self).total,
            if is_over(*cache, old(self).count as int, old(self).total as int) && old(
                self,
            ).rest@.len() > 0 {
                &&& r == Some(old(self).rest@.last())
                &&& final(self).rest@ == old(self).rest@.drop_last()
            } else {
                &&& r is None
                &&& final(self).rest@ == old(self).rest@
            },
    {
        if self.count > cache.max_files || self.total > cache.max_bytes {
            self.rest.pop()
        } else {
            None
        }
    }

    /// Counts a file that was removed.
    pub fn removed(&mut self, size: u64)
        requires
            old(self).count > 0,
        ensures
            final(self).rest == old(self).rest,
            final(self).count == old(self).count - 1,
            final(self).total == (if old(self).total >= size {
                old(self).total - size
            } else {
                0
            }),
    {
        self.count = self.count - 1;
        self.total = if self.total >= size {
            self.total - size
        } else {
            0
        };
    }
}

/// The files that stay where every file can be removed, the newest first.
pub open spec fn kept_files(cache: PreviewDiskCache, rest: Seq<PreviewFile>) -> Seq<PreviewFile>
    decreases rest.len(),
{
    if rest.len() > 0 && is_over(cache, rest.len() as int, total_size(rest)) {
        kept_files(cache, rest.drop_last())
    } else {
        rest
    }
}

/// Where every file can be removed, what stays is within the limits: the newest files,
/// as many as fit, and all of them where they fit.
pub proof fn lemma_pruning_keeps_the_newest(cache: PreviewDiskCache, rest: Seq<PreviewFile>)
    ensures
        ({
            let kept = kept_files(cache, rest);
            &&& !is_over(cache, kept.len() as int, total_size(kept))
            &&& kept.len() <= rest.len()
            &&& kept == rest.take(kept.len() as int)
            &&& kept.len() < rest.len() ==> is_over(
                cache,
                kept.len() + 1int,
                total_size(rest.take(kept.len() + 1int)),
            )
        }),
    decreases rest.len(),
{
    if rest.len() > 0 && is_over(cache, rest.len() as int, total_size(rest)) {
        let less = rest.drop_last();
        lemma_pruning_keeps_the_newest(cache, less);
        let kept = kept_files(cache, less);
        assert(rest.take(kept.len() as int) =~= less.take(kept.len() as int));
        if kept.len() < less.len() {
            assert(rest.take(kept.len() + 1int) =~= less.take(kept.len() + 1int));
        } else {
            assert(rest.take(kept.len() + 1int) =~= rest);
        }
    } else {
        assert(rest.take(rest.len() as int) =~= rest);
    }
}

/// What stays is within the limits, and one file more would exceed one of them.
pub proof fn lemma_pruning_stays_within_limits(cache: PreviewDiskCache, rest: Seq<PreviewFile>)
    ensures
        ({
            let kept = kept_files(cache, rest);
            &&& kept.len() <= cache.max_files
            &&& total_size(kept) <= cache.max_bytes
            &&& kept.len() < rest.len() ==> kept.len() == cache.max_files || total_size(
                rest.take(kept.len() + 1int),
            ) > cache.max_bytes
        }),
{
    lemma_pruning_keeps_the_newest(cache, rest);
}

/// The sizes of two runs of files add up, and one file counts its bytes.
pub proof fn lemma_sizes_add_up(a: Seq<PreviewFile>, b: Seq<PreviewFile>, f: PreviewFile)
    ensures
        total_size(a + b) == total_size(a) + total_size(b),
        total_size(seq![f]) == f.size,
    decreases b.len(),
{
    assert(seq![f].drop_last() =~= Seq::<PreviewFile>::empty());
    assert(total_size(Seq::empty()) == 0);
    if b.len() == 0 {
        assert(a + b =~= a);
    } else {
        lemma_sizes_add_up(a, b.drop_last(), f);
        assert((a + b).drop_last() =~= a + b.drop_last());
    }
}

/// Files that were used later stand before those that were not used for longer, so that the
/// oldest are removed first.
pub proof fn lemma_oldest_come_last(files: Seq<PreviewFile>)
    ensures
        ({
            let order = sorted::<PreviewFile, OldestFirst>(files).reverse();
            &&& order.len() == files.len()
            &&& forall|i: int, j: int|
                0 <= i < j < order.len() ==> (#[trigger] order[i]).used_at >= (
                #[trigger] order[j]).used_at
            &&& order.to_multiset() == files.to_multiset()
        }),
{
    let s = sorted::<PreviewFile, OldestFirst>(files);
    let order = s.reverse();
    lemma_sorted_order::<PreviewFile, OldestFirst>(files);
    assert forall|i: int, j: int| 0 <= i < j < order.len() implies (#[trigger] order[i]).used_at >= (
    #[trigger] order[j]).used_at by {
        let n = s.len() - 1;
        assert(order[i] == s[n - i] && order[j] == s[n - j]);
        assert(OldestFirst::key(&s[n - j]) >= OldestFirst::key(&s[n - i]));
    }
    lemma_reverse_keeps_items(s);
}

proof fn lemma_reverse_keeps_items(s: Seq<PreviewFile>)
    ensures
        s.reverse().to_multiset() == s.to_multiset(),
    decreases s.len(),
{
    broadcast use vstd::seq_lib::group_to_multiset_ensures;

    if s.len() == 0 {
        assert(s.reverse() =~= s);
    } else {
        let t = s.drop_last();
        lemma_reverse_keeps_items(t);
        assert(s.reverse() =~= seq![s.last()] + t.reverse());
        assert(s =~= t.push(s.last()));
        vstd::seq_lib::lemma_multiset_commutative(seq![s.last()], t.reverse());
        vstd::seq_lib::lemma_multiset_commutative(t, seq![s.last()]);
        assert(t.push(s.last()) =~= t + seq![s.last()]);
    }
}

/// Letters, digits, hyphens and underscores of a key stay in its file name, and every other
/// character becomes an underscore.
pub proof fn lemma_safe_characters(key: Seq<char>, i: int)
    requires
        0 <= i < key.len(),
    ensures
        safe_name(key).len() == key.len(),
        safe_name(key)[i] == (if ('0' <= key[i] <= '9') || ('A' <= key[i] <= 'Z') || ('a' <= key[i]
            <= 'z') || key[i] == '-' {
            key[i]
        } else {
            '_'
        }),
{
}

} // verus!
