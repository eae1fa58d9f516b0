//! The settings of the plugin: what is read of them, and what is written back.

use vstd::arithmetic::div_mod::{lemma_mod_bound, lemma_small_mod};
use vstd::prelude::*;

use crate::json::{
    as_bool, as_u64, cut_u32, field, get, read_bool, read_u64, set_field, Json, Number,
};
use crate::platforms::telegram::parallel_download::{
    compute_thread_count, get_max_threads_cap, raw_threads, set_max_threads_cap, ThreadCap,
};
use crate::platforms::telegram::sync_state::{
    clamped_interval, interval_min, is_enabled, set_enabled, set_interval_min, SyncState,
};

verus! {

/// A truth value of the settings.
pub open spec fn bool_setting(settings: Json, name: Seq<char>) -> Option<bool> {
    match field(settings, name) {
        Some(v) => as_bool(v),
        None => None,
    }
}

/// A number of the settings.
pub open spec fn number_setting(settings: Json, name: Seq<char>) -> Option<int> {
    match field(settings, name) {
        Some(v) => as_u64(v),
        None => None,
    }
}

fn read_bool_setting(settings: &Json, name: &str) -> (r: Option<bool>)
    ensures
        r == bool_setting(*settings, name@),
{
    match get(settings, name) {
        Some(v) => read_bool(v),
        None => None,
    }
}

fn read_number_setting(settings: &Json, name: &str) -> (r: Option<u64>)
    ensures
        match number_setting(*settings, name@) {
            Some(n) => r == Some(n as u64) && 0 <= n <= u64::MAX,
            None => r is None,
        },
{
    match get(settings, name) {
        Some(v) => read_u64(v),
        None => None,
    }
}

/// A number cut down to the machine's size.
pub open spec fn low_usize(n: int) -> int {
    n % (usize::MAX + 1)
}

fn cut_usize(n: u64) -> (r: usize)
    ensures
        r == low_usize(n as int),
{
    proof {
        lemma_mod_bound(n as int, usize::MAX + 1);
        if n <= usize::MAX {
            lemma_small_mod(n as nat, (usize::MAX + 1) as nat);
        }
    }
    if n <= usize::MAX as u64 {
        n as usize
    } else {
        (n % (usize::MAX as u64 + 1)) as usize
    }
}

pub open spec fn clamp(n: int, low: int, high: int) -> int {
    if n < low {
        low
    } else if n > high {
        high
    } else {
        n
    }
}

fn clamp_usize(n: usize, low: usize, high: usize) -> (r: usize)
    requires
        low <= high,
    ensures
        r == clamp(n as int, low as int, high as int),
{
    if n < low {
        low
    } else if n > high {
        high
    } else {
        n
    }
}

/// Whether file names get the extension of their type.
pub fn fix_file_extensions(settings: &Json) -> (r: bool)
    ensures
        r == (bool_setting(*settings, "fix_file_extensions"@) == Some(true)),
{
    match read_bool_setting(settings, "fix_file_extensions") {
        Some(b) => b,
        None => false,
    }
}

/// How many files of a batch are downloaded at a time.
pub fn concurrent_downloads(settings: &Json) -> (r: usize)
    ensures
        r == clamp(
            match number_setting(*settings, "concurrent_downloads"@) {
                Some(n) => low_usize(n),
                None => 3,
            },
            1,
            10,
        ),
{
    let n: usize = match read_number_setting(settings, "concurrent_downloads") {
        Some(n) => cut_usize(n),
        None => 3,
    };
    clamp_usize(n, 1, 10)
}

/// The state of the background refresh, as settings leave it.
pub open spec fn sync_with(state: SyncState, enabled: Option<bool>, minutes: Option<int>) -> SyncState {
    SyncState {
        enabled: match enabled {
            Some(b) => b,
            None => state.enabled,
        },
        interval_min: match minutes {
            Some(n) => clamped_interval((n % 0x1_0000_0000) as u32),
            None => state.interval_min,
        },
        ..state
    }
}

/// Takes over what was saved: the cap on workers and how the background refresh runs. What
/// was not saved stays.
pub fn initialize(settings: &Json, cap: &mut ThreadCap, sync: &mut SyncState)
    requires
        old(cap).well_formed(),
        old(sync).well_formed(),
    ensures
        final(cap).well_formed(),
        final(sync).well_formed(),
        final(cap).limit() == (match number_setting(*settings, "max_threads"@) {
            Some(n) => clamp(low_usize(n), 1, 32),
            None => old(cap).limit() as int,
        }),
        *final(sync) == sync_with(
            *old(sync),
            bool_setting(*settings, "sync_enabled"@),
            number_setting(*settings, "sync_interval_min"@),
        ),
{
    if let Some(n) = read_number_setting(settings, "max_threads") {
        set_max_threads_cap(cap, cut_usize(n));
    }
    if let Some(v) = read_bool_setting(settings, "sync_enabled") {
        set_enabled(sync, v);
    }
    if let Some(n) = read_number_setting(settings, "sync_interval_min") {
        set_interval_min(sync, cut_u32(n));
    }
}

/// Sets how the background refresh runs, as far as it is asked for, and writes it into the
/// settings.
pub fn sync_settings_set(
    sync: &mut SyncState,
    enabled: Option<bool>,
    minutes: Option<u64>,
    settings: Json,
) -> (r: Json)
    ensures
        *final(sync) == sync_with(
            *old(sync),
            enabled,
            match minutes {
                Some(n) => Some(n as int),
                None => None,
            },
        ),
        bool_setting(r, "sync_enabled"@) == Some(final(sync).enabled),
        number_setting(r, "sync_interval_min"@) == Some(final(sync).interval_min as int),
        forall|name: Seq<char>|
            name != "sync_enabled"@ && name != "sync_interval_min"@ ==> #[trigger] field(r, name)
                == field(settings, name),
{
    if let Some(v) = enabled {
        set_enabled(sync, v);
    }
    if let Some(n) = minutes {
        set_interval_min(sync, cut_u32(n));
    }
    let first = set_field(settings, "sync_enabled", Json::Bool(is_enabled(sync)));
    proof {
        reveal_strlit("sync_enabled");
        reveal_strlit("sync_interval_min");
        assert("sync_enabled"@.len() != "sync_interval_min"@.len());
    }
    set_field(
        first,
        "sync_interval_min",
        Json::Number(Number::Unsigned(interval_min(sync) as u64)),
    )
}

/// Sets the cap on workers and writes it into the settings.
pub fn perf_set(cap: &mut ThreadCap, max_threads: usize, settings: Json) -> (r: Json)
    ensures
        final(cap).well_formed(),
        final(cap).limit() == clamp(max_threads as int, 1, 32),
        number_setting(r, "max_threads"@) == Some(final(cap).limit() as int),
        forall|name: Seq<char>|
            name != "max_threads"@ ==> #[trigger] field(r, name) == field(settings, name),
{
    set_max_threads_cap(cap, max_threads);
    let clamped = get_max_threads_cap(cap);
    set_field(settings, "max_threads", Json::Number(Number::Unsigned(clamped as u64)))
}

/// What is saved is what the next start takes over.
pub proof fn lemma_saved_settings_return(
    saved: Json,
    before: SyncState,
    other: SyncState,
    enabled: Option<bool>,
    minutes: Option<int>,
)
    requires
        before.well_formed(),
        bool_setting(saved, "sync_enabled"@) == Some(sync_with(before, enabled, minutes).enabled),
        number_setting(saved, "sync_interval_min"@) == Some(
            sync_with(before, enabled, minutes).interval_min as int,
        ),
    ensures
        ({
            let next = sync_with(
                other,
                bool_setting(saved, "sync_enabled"@),
                number_setting(saved, "sync_interval_min"@),
            );
            &&& next.enabled == sync_with(before, enabled, minutes).enabled
            &&& next.interval_min == sync_with(before, enabled, minutes).interval_min
        }),
{
}

/// How many workers download files of which sizes, in megabytes. A largest size of nought
/// means that there is none.
#[derive(Debug, Clone, Copy)]
pub struct PerfBucket {
    pub min_mb: u32,
    pub max_mb: u32,
    pub threads: usize,
}

/// How downloads are run.
#[derive(Debug)]
pub struct PerfInfo {
    pub max_threads: usize,
    pub max_part_size_kb: u32,
    pub buckets: Vec<PerfBucket>,
}

/// The number of workers for a file of some megabytes under a cap.
pub open spec fn threads_for(mb: int, cap: ThreadCap) -> int {
    let wished = raw_threads(mb * 1024 * 1024);
    if wished <= cap.limit() {
        wished
    } else {
        cap.limit() as int
    }
}

/// `b` is the range from `min_mb` to `max_mb` with the workers for a file of `mb`.
pub open spec fn is_bucket(b: PerfBucket, min_mb: int, max_mb: int, mb: int, cap: ThreadCap) -> bool {
    b.min_mb == min_mb && b.max_mb == max_mb && b.threads == threads_for(mb, cap)
}

/// Tells how downloads are run.
pub fn perf_get(cap: &ThreadCap) -> (r: PerfInfo)
    requires
        cap.well_formed(),
    ensures
        r.max_threads == cap.limit(),
        r.max_part_size_kb == 1024,
        r.buckets@.len() == 5,
        is_bucket(r.buckets@[0], 0, 1, 0, *cap),
        is_bucket(r.buckets@[1], 1, 5, 2, *cap),
        is_bucket(r.buckets@[2], 5, 20, 10, *cap),
        is_bucket(r.buckets@[3], 20, 50, 30, *cap),
        is_bucket(r.buckets@[4], 50, 0, 100, *cap),
{
    let mut buckets: Vec<PerfBucket> = Vec::new();
    buckets.push(PerfBucket { min_mb: 0, max_mb: 1, threads: compute_thread_count(0, cap) });
    buckets.push(
        PerfBucket { min_mb: 1, max_mb: 5, threads: compute_thread_count(1024 * 1024 * 2, cap) },
    );
    buckets.push(
        PerfBucket { min_mb: 5, max_mb: 20, threads: compute_thread_count(1024 * 1024 * 10, cap) },
    );
    buckets.push(
        PerfBucket { min_mb: 20, max_mb: 50, threads: compute_thread_count(1024 * 1024 * 30, cap) },
    );
    buckets.push(
        PerfBucket { min_mb: 50, max_mb: 0, threads: compute_thread_count(1024 * 1024 * 100, cap) },
    );
    PerfInfo { max_threads: get_max_threads_cap(cap), max_part_size_kb: 1024, buckets }
}

/// A number is brought into a range without changing one that lies in it.
pub proof fn lemma_clamp(n: int, low: int, high: int)
    requires
        low <= high,
    ensures
        low <= clamp(n, low, high) <= high,
        low <= n <= high ==> clamp(n, low, high) == n,
        n < low ==> clamp(n, low, high) == low,
        n > high ==> clamp(n, low, high) == high,
{
}

/// A setting that is not given stays as it was; one that is given is taken, the interval
/// within five minutes and six hours.
pub proof fn lemma_sync_settings(state: SyncState, enabled: Option<bool>, minutes: Option<int>)
    ensures
        ({
            let next = sync_with(state, enabled, minutes);
            &&& enabled is None ==> next.enabled == state.enabled
            &&& enabled matches Some(b) ==> next.enabled == b
            &&& minutes is None ==> next.interval_min == state.interval_min
            &&& minutes matches Some(n) ==> {
                &&& 5 <= next.interval_min <= 360
                &&& 5 <= n <= 360 ==> next.interval_min == n
                &&& 360 < n <= u32::MAX ==> next.interval_min == 360
                &&& 0 <= n < 5 ==> next.interval_min == 5
            }
        }),
{
}

/// The number of workers shown for a size is that which a download of this size has.
pub proof fn lemma_threads_shown(mb: int, cap: ThreadCap)
    requires
        cap.well_formed(),
    ensures
        threads_for(mb, cap) <= cap.limit(),
        threads_for(mb, cap) <= raw_threads(mb * 1_048_576),
        threads_for(mb, cap) == cap.limit() || threads_for(mb, cap) == raw_threads(mb * 1_048_576),
{
}

/// A setting is what stands under its name, where it is of its kind.
pub proof fn lemma_settings_are_read(settings: Json, name: Seq<char>, b: bool, n: u64)
    ensures
        field(settings, name) == Some(Json::Bool(b)) ==> bool_setting(settings, name) == Some(b),
        field(settings, name) == Some(Json::Number(crate::json::Number::Unsigned(n)))
            ==> number_setting(settings, name) == Some(n as int),
        field(settings, name) is None ==> bool_setting(settings, name) is None && number_setting(
            settings,
            name,
        ) is None,
        field(settings, name) == Some(Json::Bool(b)) ==> number_setting(settings, name) is None,
{
}

/// A number that fits is not cut.
pub proof fn lemma_numbers_that_fit(n: int)
    ensures
        0 <= n <= usize::MAX ==> low_usize(n) == n,
        low_usize(usize::MAX + 1) == 0,
{
    if 0 <= n <= usize::MAX {
        lemma_small_mod(n as nat, (usize::MAX + 1) as nat);
    }
    vstd::arithmetic::div_mod::lemma_mod_self_0(usize::MAX + 1);
}

} // verus!
