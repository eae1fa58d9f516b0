//! Downloads as the host application lists them.

use std::collections::HashMap;

use vstd::prelude::*;

verus! {

/// How often progress is reported at most.
pub const PROGRESS_THROTTLE_MS: u64 = 250;

/// Counts the downloads that were listed.
pub struct QueueCounter {
    next: u64,
}

impl QueueCounter {
    pub closed spec fn count(self) -> u64 {
        self.next
    }

    pub fn new() -> (r: QueueCounter)
        ensures
            r.count() == 1,
    {
        QueueCounter { next: 1 }
    }
}

/// A number modulo two to the power of 64.
pub open spec fn wrapped(n: int) -> int {
    n % 0x1_0000_0000_0000_0000
}

/// A number for a download: a thousand times the moment in milliseconds plus the low
/// 16 bits of a counter.
pub fn next_queue_id(counter: &mut QueueCounter, now_ms: u64) -> (r: u64)
    ensures
        r == wrapped(wrapped(now_ms * 1000) + old(counter).count() % 65536),
        final(counter).count() == wrapped(old(counter).count() + 1),
{
    let bump: u64 = counter.next;
    counter.next = bump.wrapping_add(1);
    proof {
        assert(bump & 0xFFFF == bump % 65536) by (bit_vector);
    }
    now_ms.wrapping_mul(1000).wrapping_add(bump & 0xFFFF)
}

/// As long as the low bits of the counter rise and the clock does not go back, a download
/// that is listed later gets a higher number.
pub proof fn lemma_queue_ids_rise(now_a: u64, count_a: u64, now_b: u64, count_b: u64)
    requires
        now_a <= now_b,
        now_b * 1000 + 65535 <= u64::MAX,
        count_a % 65536 < count_b % 65536,
    ensures
        wrapped(wrapped(now_a * 1000) + count_a % 65536) < wrapped(
            wrapped(now_b * 1000) + count_b % 65536,
        ),
{
}

/// The moments, in nanoseconds, at which progress of each download was last reported.
pub struct ThrottleMap {
    map: HashMap<u64, u64>,
}

impl View for ThrottleMap {
    type V = Map<u64, u64>;

    closed spec fn view(&self) -> Map<u64, u64> {
        self.map@
    }
}

pub const NANOS_PER_MS: u64 = 1_000_000;

/// Progress is reported unless it was reported a moment ago.
pub open spec fn is_due(last: Map<u64, u64>, queue_id: u64, now: u64) -> bool {
    !last.contains_key(queue_id) || now - last[queue_id] >= PROGRESS_THROTTLE_MS * NANOS_PER_MS
}

impl ThrottleMap {
    pub fn new() -> (r: ThrottleMap)
        ensures
            r@ == Map::<u64, u64>::empty(),
    {
        ThrottleMap { map: HashMap::new() }
    }
}

/// Whether to report progress now; if so that is recorded.
pub fn report_progress(throttle: &mut ThrottleMap, queue_id: u64, now: u64) -> (r: bool)
    ensures
        r == is_due(old(throttle)@, queue_id, now),
        final(throttle)@ == (if r {
            old(throttle)@.insert(queue_id, now)
        } else {
            old(throttle)@
        }),
{
    broadcast use vstd::std_specs::hash::group_hash_axioms;

    let due = match throttle.map.get(&queue_id) {
        Some(last) => now >= *last && now - *last >= PROGRESS_THROTTLE_MS * NANOS_PER_MS,
        None => true,
    };
    if due {
        let _ = throttle.map.insert(queue_id, now);
    }
    due
}

/// Forgets a download that is complete.
pub fn report_complete(throttle: &mut ThrottleMap, queue_id: u64)
    ensures
        final(throttle)@ == old(throttle)@.remove(queue_id),
{
    broadcast use vstd::std_specs::hash::group_hash_axioms;

    let _ = throttle.map.remove(&queue_id);
    proof {
        assert(throttle@ =~= old(throttle)@.remove(queue_id));
    }
}

/// Two reports of one download are at least the throttle apart.
pub proof fn lemma_reports_are_apart(last: Map<u64, u64>, queue_id: u64, first: u64, second: u64)
    requires
        is_due(last.insert(queue_id, first), queue_id, second),
    ensures
        second >= first + PROGRESS_THROTTLE_MS * NANOS_PER_MS,
{
}

/// A first report is always due, and a later one exactly a quarter of a second after the
/// last or more.
pub proof fn lemma_when_reports_are_due(last: Map<u64, u64>, queue_id: u64, now: u64)
    ensures
        !last.contains_key(queue_id) ==> is_due(last, queue_id, now),
        last.contains_key(queue_id) ==> (is_due(last, queue_id, now) <==> now >= last[queue_id]
            + 250_000_000),
{
}

} // verus!
