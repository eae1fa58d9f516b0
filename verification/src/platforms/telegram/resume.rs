//! Which messages of a batch were downloaded before it was broken off.

use std::collections::HashSet;

use sha2::Digest;
use vstd::prelude::*;

use crate::paths::RelPath;
use crate::sort::{sort_descending, sorted, SortBy};
use crate::text::{hex, hex_text, joined};

verus! {

/// The messages of a batch that are done.
#[derive(Debug)]
pub struct ResumeState {
    pub completed: HashSet<i32>,
    pub last_updated: i64,
}

impl Default for ResumeState {
    /// Nothing is done.
    fn default() -> (r: ResumeState)
        ensures
            r.completed@ == Set::<i32>::empty(),
            r.last_updated == 0,
    {
        ResumeState { completed: HashSet::new(), last_updated: 0 }
    }
}

/// Records that a message is done.
pub fn mark_completed(state: &mut ResumeState, message_id: i32, now: i64)
    ensures
        final(state).completed@ == old(state).completed@.insert(message_id),
        final(state).last_updated == now,
{
    broadcast use vstd::std_specs::hash::group_hash_axioms;

    let _ = state.completed.insert(message_id);
    state.last_updated = now;
}

/// Whether a message is done.
pub fn is_completed(state: &ResumeState, message_id: i32) -> (r: bool)
    ensures
        r == state.completed@.contains(message_id),
{
    broadcast use vstd::std_specs::hash::group_hash_axioms;

    state.completed.contains(&message_id)
}

/// Messages that were marked stay marked.
pub proof fn lemma_marks_accumulate(completed: Set<i32>, a: i32, b: i32)
    ensures
        completed.insert(a).insert(b).contains(a),
        completed.insert(a).insert(b).contains(b),
        completed.subset_of(completed.insert(a)),
{
}

/// The file in which the state of a batch is kept.
pub fn resume_file_path(fingerprint: &str) -> (r: RelPath)
    ensures
        r@ == seq!["resume"@, fingerprint@ + ".json"@],
{
    let name = joined(fingerprint, ".json");
    let r = RelPath::one("resume").join(name.as_str());
    proof {
        assert(r@ =~= seq!["resume"@, fingerprint@ + ".json"@]);
    }
    r
}

// ------------------------------------------------------------ fingerprints

/// What SHA-256 makes of a message.
pub uninterp spec fn sha256_of(data: Seq<u8>) -> Seq<u8>;

/// `sha2::Sha256::digest`: the digest of a message is a function of its bytes and
/// has 32 bytes.
#[verifier::external_body]
fn sha256(data: &Vec<u8>) -> (r: Vec<u8>)
    ensures
        r@ == sha256_of(data@),
        r@.len() == 32,
{
    sha2::Sha256::digest(data.as_slice()).to_vec()
}

/// Smallest number first.
pub struct Ascending;

impl SortBy<i32> for Ascending {
    open spec fn key(x: &i32) -> int {
        -(*x as int)
    }

    fn key_of(x: &i32) -> (r: i128) {
        -(*x as i128)
    }
}

/// The bytes of a number, the lowest first.
pub open spec fn le_bytes(n: int, count: nat) -> Seq<u8>
    decreases count,
{
    if count == 0 {
        Seq::empty()
    } else {
        seq![(n % 256) as u8] + le_bytes(n / 256, (count - 1) as nat)
    }
}

/// The bytes of several numbers of 32 bits.
pub open spec fn all_le_bytes(ids: Seq<i32>) -> Seq<u8>
    decreases ids.len(),
{
    if ids.len() == 0 {
        Seq::empty()
    } else {
        all_le_bytes(ids.drop_last()) + le_bytes(ids.last() as int, 4)
    }
}

/// What is hashed for a batch: the chat, then the messages in ascending order.
pub open spec fn fingerprint_input(chat_id: i64, ids: Seq<i32>) -> Seq<u8> {
    le_bytes(chat_id as int, 8) + all_le_bytes(sorted::<i32, Ascending>(ids))
}

fn push_le(out: &mut Vec<u8>, n: i64, count: usize)
    requires
        count <= 8,
    ensures
        final(out)@ == old(out)@ + le_bytes(n as int, count as nat),
{
    let mut rest: i64 = n;
    let mut i: usize = 0;
    proof {
        assert(le_bytes(n as int, 0).len() == 0);
    }
    while i < count
        invariant
            i <= count <= 8,
            out@ + le_bytes(rest as int, (count - i) as nat) == old(out)@ + le_bytes(
                n as int,
                count as nat,
            ),
        decreases count - i,
    {
        // Division that rounds down, of a number of either sign.
        let low: i64 = if rest >= 0 {
            rest % 256
        } else {
            255 - ((-(rest + 1)) % 256)
        };
        let high: i64 = if rest >= 0 {
            rest / 256
        } else {
            -((-(rest + 1)) / 256) - 1
        };
        proof {
            let before = out@;
            let tail = le_bytes(rest as int / 256, (count - i - 1) as nat);
            assert(low == rest as int % 256);
            assert(high == rest as int / 256);
            assert(before + (seq![low as u8] + tail) =~= before.push(low as u8) + tail);
        }
        out.push(low as u8);
        rest = high;
        i = i + 1;
    }
    proof {
        assert(le_bytes(rest as int, 0) =~= Seq::empty());
        assert(out@ + Seq::<u8>::empty() =~= out@);
    }
}

/// The bytes that are hashed for a batch.
pub fn fingerprint_bytes(chat_id: i64, message_ids: &Vec<i32>) -> (r: Vec<u8>)
    ensures
        r@ == fingerprint_input(chat_id, message_ids@),
{
    let copy = message_ids.clone();
    proof {
        assert(copy@ =~= message_ids@);
    }
    let ids = sort_descending::<i32, Ascending>(copy);
    let mut out: Vec<u8> = Vec::new();
    push_le(&mut out, chat_id, 8);
    let mut i: usize = 0;
    proof {
        assert(out@ =~= le_bytes(chat_id as int, 8) + all_le_bytes(ids@.take(0)));
    }
    while i < ids.len()
        invariant
            i <= ids@.len(),
            out@ == le_bytes(chat_id as int, 8) + all_le_bytes(ids@.take(i as int)),
        decreases ids@.len() - i,
    {
        let ghost before = out@;
        push_le(&mut out, ids[i] as i64, 4);
        proof {
            assert(ids@.take(i + 1).drop_last() =~= ids@.take(i as int));
            assert(out@ =~= le_bytes(chat_id as int, 8) + all_le_bytes(ids@.take(i + 1)));
        }
        i = i + 1;
    }
    proof {
        assert(ids@.take(i as int) =~= ids@);
    }
    out
}

/// How many bytes of the digest a fingerprint shows.
pub const FINGERPRINT_BYTES: usize = 8;

/// The fingerprint that a digest gives.
pub fn fingerprint_of_digest(digest: &Vec<u8>) -> (r: String)
    requires
        digest@.len() >= FINGERPRINT_BYTES,
    ensures
        r@ == hex(digest@.take(FINGERPRINT_BYTES as int)),
{
    let mut head: Vec<u8> = Vec::new();
    let mut i: usize = 0;
    while i < FINGERPRINT_BYTES
        invariant
            i <= FINGERPRINT_BYTES <= digest@.len(),
            head@ == digest@.take(i as int),
        decreases FINGERPRINT_BYTES - i,
    {
        head.push(digest[i]);
        i = i + 1;
        proof {
            assert(head@ =~= digest@.take(i as int));
        }
    }
    hex_text(&head)
}

/// A name for a batch, made of its chat and its messages whatever their order.
pub fn compute_fingerprint(chat_id: i64, message_ids: &Vec<i32>) -> (r: String)
    ensures
        r@ == hex(
            sha256_of(fingerprint_input(chat_id, message_ids@)).take(FINGERPRINT_BYTES as int),
        ),
        r@.len() == 2 * FINGERPRINT_BYTES,
        r@.len() == 16,
{
    let bytes = fingerprint_bytes(chat_id, message_ids);
    let digest = sha256(&bytes);
    let r = fingerprint_of_digest(&digest);
    r
}

/// The order in which the messages of a batch are given does not matter.
pub proof fn lemma_fingerprint_ignores_order(chat_id: i64, a: Seq<i32>, b: Seq<i32>)
    requires
        a.to_multiset() == b.to_multiset(),
    ensures
        fingerprint_input(chat_id, a) == fingerprint_input(chat_id, b),
{
    crate::sort::lemma_sorted_is_stable_sort::<i32, Ascending>(a);
    crate::sort::lemma_sorted_is_stable_sort::<i32, Ascending>(b);
    lemma_same_order(sorted::<i32, Ascending>(a), sorted::<i32, Ascending>(b));
}

proof fn lemma_same_order(x: Seq<i32>, y: Seq<i32>)
    requires
        crate::sort::is_descending::<i32, Ascending>(x),
        crate::sort::is_descending::<i32, Ascending>(y),
        x.to_multiset() == y.to_multiset(),
    ensures
        x == y,
{
    let leq = |p: i32, q: i32| p <= q;
    assert(vstd::relations::sorted_by(x, leq)) by {
        assert forall|i: int, j: int| 0 <= i < j < x.len() implies #[trigger] leq(x[i], x[j]) by {
            assert(Ascending::key(&x[i]) >= Ascending::key(&x[j]));
        }
    }
    assert(vstd::relations::sorted_by(y, leq)) by {
        assert forall|i: int, j: int| 0 <= i < j < y.len() implies #[trigger] leq(y[i], y[j]) by {
            assert(Ascending::key(&y[i]) >= Ascending::key(&y[j]));
        }
    }
    vstd::seq_lib::lemma_sorted_unique(x, y, leq);
}

proof fn lemma_le_bytes_len(n: int, count: nat)
    ensures
        le_bytes(n, count).len() == count,
    decreases count,
{
    if count > 0 {
        lemma_le_bytes_len(n / 256, (count - 1) as nat);
    }
}

proof fn lemma_le_bytes_tell_apart(a: int, b: int, count: nat, bound: int)
    requires
        le_bytes(a, count) == le_bytes(b, count),
        bound == vstd::arithmetic::power::pow(256, count),
        -bound < 2 * a < bound || 2 * a == -bound,
        -bound < 2 * b < bound || 2 * b == -bound,
        count > 0,
    ensures
        a == b,
    decreases count,
{
    let x = le_bytes(a, count);
    let y = le_bytes(b, count);
    let rest = (count - 1) as nat;
    lemma_le_bytes_len(a / 256, rest);
    lemma_le_bytes_len(b / 256, rest);
    assert(x[0] == (a % 256) as u8 && y[0] == (b % 256) as u8);
    assert(a % 256 == b % 256);
    assert(x.skip(1) =~= le_bytes(a / 256, rest));
    assert(y.skip(1) =~= le_bytes(b / 256, rest));
    vstd::arithmetic::power::lemma_pow0(256);
    reveal(vstd::arithmetic::power::pow);
    if rest > 0 {
        let smaller = vstd::arithmetic::power::pow(256, rest);
        assert(bound == 256 * smaller);
        lemma_le_bytes_tell_apart(a / 256, b / 256, rest, smaller);
    } else {
        assert(bound == 256);
    }
}

proof fn lemma_all_le_bytes_tell_apart(a: Seq<i32>, b: Seq<i32>)
    requires
        all_le_bytes(a) == all_le_bytes(b),
    ensures
        a == b,
    decreases a.len(),
{
    lemma_all_le_bytes_len(a);
    lemma_all_le_bytes_len(b);
    if a.len() > 0 {
        let x = all_le_bytes(a.drop_last());
        let y = all_le_bytes(b.drop_last());
        lemma_all_le_bytes_len(a.drop_last());
        lemma_all_le_bytes_len(b.drop_last());
        lemma_le_bytes_len(a.last() as int, 4);
        lemma_le_bytes_len(b.last() as int, 4);
        let whole = all_le_bytes(a);
        assert(whole.take(x.len() as int) =~= x);
        assert(whole.take(x.len() as int) =~= y);
        assert(whole.skip(x.len() as int) =~= le_bytes(a.last() as int, 4));
        assert(whole.skip(x.len() as int) =~= le_bytes(b.last() as int, 4));
        lemma_all_le_bytes_tell_apart(a.drop_last(), b.drop_last());
        lemma_pow_256();
        lemma_le_bytes_tell_apart(a.last() as int, b.last() as int, 4, 0x1_0000_0000);
        assert(a =~= a.drop_last().push(a.last()));
        assert(b =~= b.drop_last().push(b.last()));
    } else {
        assert(a =~= b);
    }
}

proof fn lemma_all_le_bytes_len(ids: Seq<i32>)
    ensures
        all_le_bytes(ids).len() == 4 * ids.len(),
    decreases ids.len(),
{
    if ids.len() > 0 {
        lemma_all_le_bytes_len(ids.drop_last());
        lemma_le_bytes_len(ids.last() as int, 4);
    }
}

proof fn lemma_pow_256()
    ensures
        vstd::arithmetic::power::pow(256, 4) == 0x1_0000_0000,
        vstd::arithmetic::power::pow(256, 8) == 0x1_0000_0000_0000_0000,
{
    reveal_with_fuel(vstd::arithmetic::power::pow, 9);
}

/// What is hashed for two batches differs where their chats or their messages differ.
pub proof fn lemma_fingerprint_input_tells_batches_apart(
    chat_a: i64,
    a: Seq<i32>,
    chat_b: i64,
    b: Seq<i32>,
)
    requires
        fingerprint_input(chat_a, a) == fingerprint_input(chat_b, b),
    ensures
        chat_a == chat_b,
        a.to_multiset() == b.to_multiset(),
{
    let whole = fingerprint_input(chat_a, a);
    let sa = sorted::<i32, Ascending>(a);
    let sb = sorted::<i32, Ascending>(b);
    lemma_le_bytes_len(chat_a as int, 8);
    lemma_le_bytes_len(chat_b as int, 8);
    assert(whole.take(8) =~= le_bytes(chat_a as int, 8));
    assert(whole.take(8) =~= le_bytes(chat_b as int, 8));
    assert(whole.skip(8) =~= all_le_bytes(sa));
    assert(whole.skip(8) =~= all_le_bytes(sb));
    lemma_pow_256();
    lemma_le_bytes_tell_apart(
        chat_a as int,
        chat_b as int,
        8,
        0x1_0000_0000_0000_0000,
    );
    lemma_all_le_bytes_tell_apart(sa, sb);
    crate::sort::lemma_sorted_is_stable_sort::<i32, Ascending>(a);
    crate::sort::lemma_sorted_is_stable_sort::<i32, Ascending>(b);
}

/// A number is written with its lowest byte first, and each message takes four bytes behind
/// those of the ones before it.
pub proof fn lemma_bytes_of_numbers(n: int, count: nat, ids: Seq<i32>, id: i32)
    ensures
        le_bytes(n, count).len() == count,
        count > 0 ==> le_bytes(n, count)[0] == n % 256,
        count > 0 ==> le_bytes(n, count).skip(1) == le_bytes(n / 256, (count - 1) as nat),
        all_le_bytes(ids.push(id)) == all_le_bytes(ids) + le_bytes(id as int, 4),
        all_le_bytes(Seq::empty()).len() == 0,
    decreases count,
{
    assert(ids.push(id).drop_last() =~= ids);
    if count > 0 {
        lemma_bytes_of_numbers(n / 256, (count - 1) as nat, ids, id);
        assert(le_bytes(n, count).skip(1) =~= le_bytes(n / 256, (count - 1) as nat));
    }
}

} // verus!
