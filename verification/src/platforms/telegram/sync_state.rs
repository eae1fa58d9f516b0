//! When the dialogs are refreshed in the background, and what came of it.

use vstd::prelude::*;

verus! {

pub const DEFAULT_INTERVAL_MIN: u32 = 30;

pub const MIN_INTERVAL_MIN: u32 = 5;

pub const MAX_INTERVAL_MIN: u32 = 360;

/// The state of the background refresh.
#[derive(Debug, Clone, Copy, PartialEq, Eq, Structural)]
pub struct SyncState {
    pub enabled: bool,
    pub interval_min: u32,
    pub last_success_at: i64,
    pub last_duration_ms: u32,
    pub last_updated_count: u32,
    pub is_syncing: bool,
}

impl SyncState {
    /// The interval is one that can be set.
    pub open spec fn well_formed(self) -> bool {
        MIN_INTERVAL_MIN <= self.interval_min <= MAX_INTERVAL_MIN
    }

    /// The state before the first refresh.
    pub fn new() -> (r: SyncState)
        ensures
            r == (SyncState {
                enabled: true,
                interval_min: DEFAULT_INTERVAL_MIN,
                last_success_at: 0,
                last_duration_ms: 0,
                last_updated_count: 0,
                is_syncing: false,
            }),
            r.interval_min == 30,
            r.well_formed(),
    {
        SyncState {
            enabled: true,
            interval_min: DEFAULT_INTERVAL_MIN,
            last_success_at: 0,
            last_duration_ms: 0,
            last_updated_count: 0,
            is_syncing: false,
        }
    }
}

pub fn is_enabled(state: &SyncState) -> (r: bool)
    ensures
        r == state.enabled,
{
    state.enabled
}

pub fn set_enabled(state: &mut SyncState, v: bool)
    ensures
        *final(state) == (SyncState { enabled: v, ..*old(state) }),
{
    state.enabled = v;
}

pub fn interval_min(state: &SyncState) -> (r: u32)
    ensures
        r == state.interval_min,
{
    state.interval_min
}

/// An interval brought into the range that can be set.
pub open spec fn clamped_interval(v: u32) -> u32 {
    if v < MIN_INTERVAL_MIN {
        MIN_INTERVAL_MIN
    } else if v > MAX_INTERVAL_MIN {
        MAX_INTERVAL_MIN
    } else {
        v
    }
}

pub fn set_interval_min(state: &mut SyncState, v: u32)
    ensures
        *final(state) == (SyncState { interval_min: clamped_interval(v), ..*old(state) }),
        final(state).well_formed(),
{
    let clamped: u32 = if v < MIN_INTERVAL_MIN {
        MIN_INTERVAL_MIN
    } else if v > MAX_INTERVAL_MIN {
        MAX_INTERVAL_MIN
    } else {
        v
    };
    state.interval_min = clamped;
}

/// The state as it is now.
pub fn snapshot(state: &SyncState) -> (r: SyncState)
    ensures
        r == *state,
{
    *state
}

/// Begins a refresh, unless one is running.
pub fn begin_sync(state: &mut SyncState) -> (r: bool)
    ensures
        r == !old(state).is_syncing,
        *final(state) == (SyncState { is_syncing: true, ..*old(state) }),
{
    let running = state.is_syncing;
    state.is_syncing = true;
    !running
}

/// Ends a refresh. Of one that succeeded the moment, the duration and the number of
/// updates are kept, the latter two in 32 bits; of one that failed nothing.
pub fn finish_sync(state: &mut SyncState, updated: Option<usize>, now: i64, elapsed_ms: u128) -> (r:
    Option<u32>)
    ensures
        match updated {
            Some(count) => {
                &&& r == Some((count as int % 0x1_0000_0000) as u32)
                &&& *final(state) == (SyncState {
                    is_syncing: false,
                    last_success_at: now,
                    last_duration_ms: (elapsed_ms as int % 0x1_0000_0000) as u32,
                    last_updated_count: (count as int % 0x1_0000_0000) as u32,
                    ..*old(state)
                })
            },
            None => r is None && *final(state) == (SyncState { is_syncing: false, ..*old(state) }),
        },
{
    state.is_syncing = false;
    match updated {
        Some(count) => {
            let kept: u32 = (count as u64 % 0x1_0000_0000) as u32;
            state.last_success_at = now;
            state.last_duration_ms = (elapsed_ms % 0x1_0000_0000) as u32;
            state.last_updated_count = kept;
            Some(kept)
        },
        None => None,
    }
}

/// The pause between two refreshes, in seconds.
pub fn pause_secs(state: &SyncState) -> (r: u64)
    ensures
        r == (if state.interval_min == 0 {
            60
        } else {
            state.interval_min * 60
        }),
        state.well_formed() ==> r == state.interval_min * 60,
{
    let secs: u64 = state.interval_min as u64 * 60;
    if secs < 60 {
        60
    } else {
        secs
    }
}

/// Whether the background loop refreshes after a pause: only where it is enabled and
/// someone is signed in.
pub fn is_due(state: &SyncState, authenticated: bool) -> (r: bool)
    ensures
        r == (state.enabled && authenticated),
{
    state.enabled && authenticated
}

/// An interval stays as it is between five minutes and six hours.
pub proof fn lemma_intervals(v: u32)
    ensures
        5 <= clamped_interval(v) <= 360,
        5 <= v <= 360 ==> clamped_interval(v) == v,
        v < 5 ==> clamped_interval(v) == 5,
        v > 360 ==> clamped_interval(v) == 360,
{
}

} // verus!
