//! How much was downloaded today, and how much may be.

use vstd::prelude::*;

use crate::json::{cut_i32, low_i32};
use crate::paths::RelPath;
use crate::text::{
    decimal, joined3, lemma_decimal_reads_back, lemma_padding_keeps_the_value, padded, padded_signed,
    padded_signed_text, padded_text,
};

verus! {

// ------------------------------------------------------------ dates

pub open spec fn is_leap(y: int) -> bool {
    y % 4 == 0 && (y % 100 != 0 || y % 400 == 0)
}

pub open spec fn days_in_month(y: int, m: int) -> int {
    if m == 2 {
        if is_leap(y) {
            29
        } else {
            28
        }
    } else if m == 4 || m == 6 || m == 9 || m == 11 {
        30
    } else {
        31
    }
}

/// A date of the Gregorian calendar, continued to all years.
pub open spec fn is_date(y: int, m: int, d: int) -> bool {
    1 <= m <= 12 && 1 <= d <= days_in_month(y, m)
}

/// The days of a year before a month.
pub open spec fn days_before_month(y: int, m: int) -> int
    decreases m,
{
    if m <= 1 {
        0
    } else {
        days_before_month(y, m - 1) + days_in_month(y, m - 1)
    }
}

/// The days before a year, counted from the first day of the year 1.
pub open spec fn days_before_year(y: int) -> int {
    365 * (y - 1) + (y - 1) / 4 - (y - 1) / 100 + (y - 1) / 400
}

/// The number of a date, counted from the first of January 1970.
pub open spec fn day_number(y: int, m: int, d: int) -> int {
    days_before_year(y) + days_before_month(y, m) + (d - 1) - days_before_year(1970)
}

/// The first day of the first year that fits.
pub const FIRST_DAY: i64 = -784_353_015_833;

/// The last day of the last year that fits.
pub const LAST_DAY: i64 = 784_351_576_776;

proof fn lemma_months(y: int)
    ensures
        days_before_month(y, 1) == 0,
        days_before_month(y, 2) == 31,
        ({
            let feb = days_in_month(y, 2);
            &&& days_before_month(y, 3) == 31 + feb
            &&& days_before_month(y, 4) == 62 + feb
            &&& days_before_month(y, 5) == 92 + feb
            &&& days_before_month(y, 6) == 123 + feb
            &&& days_before_month(y, 7) == 153 + feb
            &&& days_before_month(y, 8) == 184 + feb
            &&& days_before_month(y, 9) == 215 + feb
            &&& days_before_month(y, 10) == 245 + feb
            &&& days_before_month(y, 11) == 276 + feb
            &&& days_before_month(y, 12) == 306 + feb
        }),
{
    reveal_with_fuel(days_before_month, 13);
}

/// The years of a cycle of 400, counted from a first of March.
#[verifier::spinoff_prover]
proof fn lemma_year_of_cycle(doe: int, yoe: int, doy: int)
    requires
        0 <= doe < 146_097,
        yoe == (doe - doe / 1460 + doe / 36_524 - doe / 146_096) / 365,
        doy == doe - (365 * yoe + yoe / 4 - yoe / 100),
    ensures
        0 <= yoe < 400,
        0 <= doy <= 365,
        doy == 365 ==> is_leap(yoe + 1),
{
}

/// The months of a year that begins on a first of March.
proof fn lemma_month_of_year(doy: int, mp: int, d: int)
    requires
        0 <= doy <= 365,
        mp == (5 * doy + 2) / 153,
        d == doy - (153 * mp + 2) / 5 + 1,
    ensures
        0 <= mp <= 11,
        1 <= d,
        mp == 0 ==> doy == d - 1 && d <= 31,
        mp == 1 ==> doy == 31 + d - 1 && d <= 30,
        mp == 2 ==> doy == 61 + d - 1 && d <= 31,
        mp == 3 ==> doy == 92 + d - 1 && d <= 30,
        mp == 4 ==> doy == 122 + d - 1 && d <= 31,
        mp == 5 ==> doy == 153 + d - 1 && d <= 31,
        mp == 6 ==> doy == 184 + d - 1 && d <= 30,
        mp == 7 ==> doy == 214 + d - 1 && d <= 31,
        mp == 8 ==> doy == 245 + d - 1 && d <= 30,
        mp == 9 ==> doy == 275 + d - 1 && d <= 31,
        mp == 10 ==> doy == 306 + d - 1 && d <= 31,
        mp == 11 ==> doy == 337 + d - 1 && d <= 29 && (d == 29 ==> doy == 365),
{
}

/// A year is one day longer where it is a leap year.
proof fn lemma_next_year(y: int)
    ensures
        days_before_year(y + 1) == days_before_year(y) + 365 + if is_leap(y) {
            1int
        } else {
            0
        },
{
    assert(y / 4 == (y - 1) / 4 + if y % 4 == 0 {
        1int
    } else {
        0
    });
    assert(y / 100 == (y - 1) / 100 + if y % 100 == 0 {
        1int
    } else {
        0
    });
    assert(y / 400 == (y - 1) / 400 + if y % 400 == 0 {
        1int
    } else {
        0
    });
    assert(y % 100 == 0 ==> y % 4 == 0);
    assert(y % 400 == 0 ==> y % 100 == 0);
}

/// The days before the year that follows a first of March, by its place in a cycle of
/// 400 years.
#[verifier::spinoff_prover]
proof fn lemma_days_of_cycle(era: int, yoe: int, y: int)
    requires
        0 <= yoe < 400,
        y == yoe + 400 * era,
    ensures
        days_before_year(y + 1) == 365 * yoe + yoe / 4 - yoe / 100 + 146_097 * era,
        is_leap(y + 1) == is_leap(yoe + 1),
{
    vstd::arithmetic::div_mod::lemma_hoist_over_denominator(yoe, 100 * era, 4);
    vstd::arithmetic::div_mod::lemma_hoist_over_denominator(yoe, 4 * era, 100);
    vstd::arithmetic::div_mod::lemma_hoist_over_denominator(yoe, era, 400);
    vstd::arithmetic::div_mod::lemma_mod_multiples_vanish(100 * era, yoe + 1, 4);
    vstd::arithmetic::div_mod::lemma_mod_multiples_vanish(4 * era, yoe + 1, 100);
    vstd::arithmetic::div_mod::lemma_mod_multiples_vanish(era, yoe + 1, 400);
    assert(yoe / 400 == 0);
}

/// The date that a place in a cycle of 400 years is.
proof fn lemma_date_of_cycle(era: int, doe: int, yoe: int, doy: int, mp: int, y: int, m: int, d: int)
    requires
        0 <= doe < 146_097,
        yoe == (doe - doe / 1460 + doe / 36_524 - doe / 146_096) / 365,
        doy == doe - (365 * yoe + yoe / 4 - yoe / 100),
        mp == (5 * doy + 2) / 153,
        d == doy - (153 * mp + 2) / 5 + 1,
        m == (if mp < 10 {
            mp + 3
        } else {
            mp - 9
        }),
        y == yoe + 400 * era + if m <= 2 {
            1int
        } else {
            0
        },
    ensures
        is_date(y, m, d),
        day_number(y, m, d) == doe + 146_097 * era - 719_468,
{
    let march_year = yoe + 400 * era;
    lemma_year_of_cycle(doe, yoe, doy);
    lemma_month_of_year(doy, mp, d);
    lemma_days_of_cycle(era, yoe, march_year);
    lemma_next_year(march_year);
    lemma_months(march_year);
    lemma_months(march_year + 1);
    assert(days_before_year(1970) == 719_162);
    let base = days_before_year(march_year + 1);
    if m > 2 {
        let feb = days_in_month(march_year, 2);
        assert(days_before_month(march_year, m) + (d - 1) == doy + 31 + feb);
    } else {
        assert(days_before_month(march_year + 1, m) + (d - 1) == doy - 306);
    }
}

proof fn lemma_days_before_month_bound(y: int, m: int)
    requires
        1 <= m <= 12,
    ensures
        0 <= days_before_month(y, m) <= 335,
{
    lemma_months(y);
}

/// The year of a day between the first and the last one is not cut.
pub proof fn lemma_year_fits(y: int, m: int, d: int)
    requires
        is_date(y, m, d),
        FIRST_DAY <= day_number(y, m, d) <= LAST_DAY,
    ensures
        i32::MIN <= y <= i32::MAX,
        low_i32(y) == y,
{
    lemma_days_before_month_bound(y, m);
    lemma_months(y);
    assert(days_before_year(1970) == 719_162);
    assert(days_before_month(y, m) + d <= 365 + if is_leap(y) {
        1int
    } else {
        0
    });
    lemma_next_year(y);
    if y > i32::MAX {
        lemma_years_grow(0x8000_0000, y);
        assert(days_before_year(0x8000_0000) == 784_352_295_939);
    }
    if y < i32::MIN {
        lemma_years_grow(y + 1, -0x8000_0000);
        assert(days_before_year(-0x8000_0000) == -784_352_296_671);
    }
}

proof fn lemma_years_grow(a: int, b: int)
    requires
        a <= b,
    ensures
        days_before_year(a) <= days_before_year(b),
{
    let x = a - 1;
    let y = b - 1;
    assert(x / 4 <= y / 4);
    assert(x / 400 <= y / 400);
    assert(y / 100 - x / 100 <= y - x);
}

/// Adding more to a day than this would leave its type.
pub const MAX_DAYS: i64 = 9_223_372_036_854_056_339;

fn unix_days_to_ymd(days: i64) -> (r: (i64, u32, u32))
    requires
        days <= MAX_DAYS,
    ensures
        is_date(r.0 as int, r.1 as int, r.2 as int),
        day_number(r.0 as int, r.1 as int, r.2 as int) == days,
{
    let shifted: i64 = days + 719_468;
    let era: i64 = if shifted >= 0 {
        shifted / 146_097
    } else {
        -((146_096 - shifted) / 146_097)
    };
    let doe: u64 = (shifted - era * 146_097) as u64;
    proof {
        assert(0 <= doe < 146_097);
    }
    let yoe: u64 = (doe - doe / 1460 + doe / 36_524 - doe / 146_096) / 365;
    proof {
        lemma_year_of_cycle(
            doe as int,
            yoe as int,
            doe - (365 * yoe + yoe as int / 4 - yoe as int / 100),
        );
    }
    let doy: u64 = doe - (365 * yoe + yoe / 4 - yoe / 100);
    proof {
        lemma_year_of_cycle(doe as int, yoe as int, doy as int);
    }
    let mp: u64 = (5 * doy + 2) / 153;
    let d: u32 = (doy - (153 * mp + 2) / 5 + 1) as u32;
    let m: u32 = if mp < 10 {
        (mp + 3) as u32
    } else {
        (mp - 9) as u32
    };
    let march_year: i64 = yoe as i64 + era * 400;
    let y: i64 = if m <= 2 {
        march_year + 1
    } else {
        march_year
    };
    proof {
        lemma_date_of_cycle(
            era as int,
            doe as int,
            yoe as int,
            doy as int,
            mp as int,
            y as int,
            m as int,
            d as int,
        );
    }
    (y, m, d)
}

/// The date that a number of days since the first of January 1970 is.
pub open spec fn is_day(days: i64, y: int, m: int, d: int) -> bool {
    is_date(y, m, d) && day_number(y, m, d) == days
}

/// The year, month and day that a number of days since the first of January 1970 is. A year
/// that does not fit into 32 bits is cut.
pub fn unix_days_to_ymd_pub(days: i64) -> (r: (i32, u32, u32))
    requires
        days <= MAX_DAYS,
    ensures
        exists|y: int| #[trigger] is_day(days, y, r.1 as int, r.2 as int) && r.0 == low_i32(y),
        FIRST_DAY <= days <= LAST_DAY ==> is_day(days, r.0 as int, r.1 as int, r.2 as int),
{
    let (y, m, d) = unix_days_to_ymd(days);
    let ghost year = y as int;
    proof {
        assert(is_day(days, year, m as int, d as int));
        if FIRST_DAY <= days <= LAST_DAY {
            lemma_year_fits(y as int, m as int, d as int);
        }
    }
    let r = (cut_i32(y), m, d);
    proof {
        assert(is_day(days, year, r.1 as int, r.2 as int) && r.0 == low_i32(year));
    }
    r
}

/// Two dates with one number are the same.
pub proof fn lemma_day_number_tells_dates_apart(
    y1: int,
    m1: int,
    d1: int,
    y2: int,
    m2: int,
    d2: int,
)
    requires
        is_date(y1, m1, d1),
        is_date(y2, m2, d2),
        day_number(y1, m1, d1) == day_number(y2, m2, d2),
    ensures
        y1 == y2 && m1 == m2 && d1 == d2,
{
    if y1 < y2 {
        lemma_earlier_year(y1, m1, d1, y2, m2, d2);
    } else if y2 < y1 {
        lemma_earlier_year(y2, m2, d2, y1, m1, d1);
    } else {
        lemma_months(y1);
    }
}

proof fn lemma_earlier_year(y1: int, m1: int, d1: int, y2: int, m2: int, d2: int)
    requires
        is_date(y1, m1, d1),
        is_date(y2, m2, d2),
        y1 < y2,
    ensures
        day_number(y1, m1, d1) < day_number(y2, m2, d2),
{
    lemma_months(y1);
    lemma_months(y2);
    lemma_next_year(y1);
    lemma_years_grow(y1 + 1, y2);
}

pub const SECS_PER_DAY: u64 = 86_400;

/// `text` is the date of a moment, as year, month and day.
pub open spec fn is_date_text(secs: u64, text: Seq<char>) -> bool {
    exists|y: int, m: int, d: int| #[trigger]
        is_date(y, m, d) && day_number(y, m, d) == secs as int / SECS_PER_DAY as int && text
            == padded_signed(low_i32(y), 4) + "-"@ + padded(m as nat, 2) + "-"@ + padded(
            d as nat,
            2,
        )
}

/// The date of a moment given in seconds since the first of January 1970.
pub fn today_date(secs: u64) -> (r: String)
    ensures
        is_date_text(secs, r@),
{
    let days: u64 = secs / SECS_PER_DAY;
    let (y, m, d) = unix_days_to_ymd(days as i64);
    let year = padded_signed_text(cut_i32(y), 4);
    let month = padded_text(m as u64, 2);
    let day = padded_text(d as u64, 2);
    let head = joined3(year.as_str(), "-", month.as_str());
    let text = joined3(head.as_str(), "-", day.as_str());
    proof {
        assert(is_date(y as int, m as int, d as int));
        assert(text@ =~= padded_signed(low_i32(y as int), 4) + "-"@ + padded(m as nat, 2) + "-"@
            + padded(d as nat, 2));
    }
    text
}

// ------------------------------------------------------------ the state

pub const DEFAULT_DAILY_QUOTA_GB: u64 = 250;

pub const BYTES_PER_GB: u64 = 1_073_741_824;

/// What was downloaded, and what may be in a day. A quota of 0 is none.
#[derive(Debug, Clone)]
pub struct BandwidthState {
    pub used_today_bytes: u64,
    pub total_used_bytes: u64,
    pub date: String,
    pub quota_bytes: u64,
}

/// The state file.
pub fn state_path() -> (r: RelPath)
    ensures
        r@ == seq!["bandwidth.json"@],
{
    RelPath::one("bandwidth.json")
}

impl BandwidthState {
    /// The state before anything was downloaded.
    pub fn fresh(today: &str) -> (r: BandwidthState)
        ensures
            r.used_today_bytes == 0,
            r.total_used_bytes == 0,
            r.date@ == today@,
            r.quota_bytes == DEFAULT_DAILY_QUOTA_GB * BYTES_PER_GB,
    {
        BandwidthState {
            used_today_bytes: 0,
            total_used_bytes: 0,
            date: today.to_owned(),
            quota_bytes: 268_435_456_000,
        }
    }
}

/// What a stored state says on a given day: what was used on another day does not
/// count. Without a stored state the fresh one stands.
pub open spec fn on_day(stored: Option<BandwidthState>, today: Seq<char>, r: BandwidthState) -> bool {
    &&& r.date@ == today
    &&& match stored {
        Some(s) => {
            &&& r.used_today_bytes == (if s.date@ == today {
                s.used_today_bytes
            } else {
                0
            })
            &&& r.total_used_bytes == s.total_used_bytes
            &&& r.quota_bytes == s.quota_bytes
        },
        None => {
            &&& r.used_today_bytes == 0
            &&& r.total_used_bytes == 0
            &&& r.quota_bytes == DEFAULT_DAILY_QUOTA_GB * BYTES_PER_GB
        },
    }
}

/// The state on a given day, and whether it has to be stored because a new day began.
pub fn load(stored: Option<BandwidthState>, today: &str) -> (r: (BandwidthState, bool))
    ensures
        on_day(stored, today@, r.0),
        r.1 == (stored matches Some(s) && s.date@ != today@),
{
    match stored {
        None => (BandwidthState::fresh(today), false),
        Some(s) => {
            let mut state = s;
            let same = crate::text::same_text(state.date.as_str(), today);
            if !same {
                state.used_today_bytes = 0;
                state.date = today.to_owned();
            }
            (state, !same)
        },
    }
}

pub open spec fn saturating_sum(a: u64, b: u64) -> u64 {
    if a + b > u64::MAX {
        u64::MAX
    } else {
        (a + b) as u64
    }
}

/// Counts downloaded bytes. Nothing is to be stored where there are none.
pub fn record_bytes(stored: Option<BandwidthState>, n: u64, today: &str) -> (r: Option<
    BandwidthState,
>)
    ensures
        n == 0 ==> r is None,
        n > 0 ==> (r matches Some(after) && exists|before: BandwidthState| #[trigger]
            on_day(stored, today@, before) && {
                &&& after.date@ == today@
                &&& after.used_today_bytes == saturating_sum(before.used_today_bytes, n)
                &&& after.total_used_bytes == saturating_sum(before.total_used_bytes, n)
                &&& after.quota_bytes == before.quota_bytes
            }),
{
    if n == 0 {
        return None;
    }
    let (mut state, _) = load(stored, today);
    let ghost before = state;
    state.used_today_bytes = state.used_today_bytes.saturating_add(n);
    state.total_used_bytes = state.total_used_bytes.saturating_add(n);
    proof {
        assert(on_day(stored, today@, before));
    }
    Some(state)
}

pub open spec fn quota_of(gb: u64) -> u64 {
    if gb * BYTES_PER_GB > u64::MAX {
        u64::MAX
    } else {
        (gb * BYTES_PER_GB) as u64
    }
}

/// Sets the quota, leaving what was counted as it is.
pub fn set_quota_gb(stored: Option<BandwidthState>, gb: u64, today: &str) -> (r: BandwidthState)
    ensures
        r.quota_bytes == quota_of(gb),
        match stored {
            Some(s) => {
                &&& r.used_today_bytes == s.used_today_bytes
                &&& r.total_used_bytes == s.total_used_bytes
                &&& r.date == s.date
            },
            None => r.used_today_bytes == 0 && r.total_used_bytes == 0 && r.date@ == today@,
        },
{
    let mut state = match stored {
        Some(s) => s,
        None => BandwidthState::fresh(today),
    };
    state.quota_bytes = match gb.checked_mul(BYTES_PER_GB) {
        Some(q) => q,
        None => u64::MAX,
    };
    state
}

/// Begins to count today's use anew.
pub fn reset_today(stored: Option<BandwidthState>, today: &str) -> (r: BandwidthState)
    ensures
        r.used_today_bytes == 0,
        r.date@ == today@,
        match stored {
            Some(s) => r.total_used_bytes == s.total_used_bytes && r.quota_bytes == s.quota_bytes,
            None => r.total_used_bytes == 0 && r.quota_bytes == DEFAULT_DAILY_QUOTA_GB
                * BYTES_PER_GB,
        },
{
    let mut state = match stored {
        Some(s) => s,
        None => BandwidthState::fresh(today),
    };
    state.used_today_bytes = 0;
    state.date = today.to_owned();
    state
}

pub open spec fn exceeds(used: u64, additional: u64, quota: u64) -> bool {
    quota != 0 && saturating_sum(used, additional) > quota
}

/// Whether a download would exceed today's quota.
pub fn would_exceed(stored: Option<BandwidthState>, additional: u64, today: &str) -> (r: bool)
    ensures
        exists|s: BandwidthState| #[trigger]
            on_day(stored, today@, s) && r == exceeds(s.used_today_bytes, additional, s.quota_bytes),
{
    let (state, _) = load(stored, today);
    proof {
        assert(on_day(stored, today@, state));
    }
    if state.quota_bytes == 0 {
        return false;
    }
    state.used_today_bytes.saturating_add(additional) > state.quota_bytes
}

/// Nothing exceeds a quota of 0.
pub proof fn lemma_no_quota(used: u64, additional: u64)
    ensures
        !exceeds(used, additional, 0),
{
}

/// On a new day the whole quota is available, whatever was used before.
pub proof fn lemma_quota_is_daily(stored: BandwidthState, today: Seq<char>, s: BandwidthState, n: u64)
    requires
        stored.date@ != today,
        on_day(Some(stored), today, s),
    ensures
        s.used_today_bytes == 0,
        exceeds(s.used_today_bytes, n, s.quota_bytes) <==> stored.quota_bytes != 0 && n
            > stored.quota_bytes,
{
}

/// The days of the calendar follow each other: through a month, from its end to the next
/// month, and from the end of December to the next year. They are counted from the first of
/// January 1970.
pub proof fn lemma_days_follow_each_other(y: int, m: int, d: int)
    requires
        is_date(y, m, d),
    ensures
        day_number(y, m, d + 1) == day_number(y, m, d) + 1,
        d == days_in_month(y, m) && m < 12 ==> day_number(y, m + 1, 1) == day_number(y, m, d) + 1,
        d == days_in_month(y, m) && m == 12 ==> day_number(y + 1, 1, 1) == day_number(y, m, d) + 1,
        day_number(1970, 1, 1) == 0,
{
    reveal_with_fuel(days_before_month, 14);
    if m == 12 {
        let a = y - 1;
        assert(days_before_month(y, 13) == if is_leap(y) {
            366int
        } else {
            365
        });
        assert(days_before_month(y, 13) == days_before_month(y, 12) + days_in_month(y, 12));
    }
}

/// April, June, September and November have thirty days, February has twenty-nine in a leap
/// year and else twenty-eight, and all others have thirty-one. Leap years can be divided by
/// four, but those that end a century only by four hundred.
pub proof fn lemma_lengths_of_months(y: int, m: int)
    ensures
        days_in_month(y, m) == 30 <==> m == 4 || m == 6 || m == 9 || m == 11,
        m == 2 ==> 28 <= days_in_month(y, m) <= 29,
        m == 2 ==> (days_in_month(y, m) == 29 <==> y % 400 == 0 || y % 4 == 0 && y % 100 != 0),
        m != 2 && m != 4 && m != 6 && m != 9 && m != 11 ==> days_in_month(y, m) == 31,
{
}

/// A sum that fits is exact, and one that does not is the greatest number there is.
pub proof fn lemma_saturating_sum(a: u64, b: u64)
    ensures
        a + b <= u64::MAX ==> saturating_sum(a, b) == a + b,
        a + b > u64::MAX ==> saturating_sum(a, b) == u64::MAX,
{
}

/// A quota is exceeded by the bytes used and those to come together, and a quota of a
/// gibibyte allows 1,073,741,824 of them.
pub proof fn lemma_quota(used: u64, additional: u64, quota: u64, gb: u64)
    ensures
        quota != 0 && used + additional <= u64::MAX ==> (exceeds(used, additional, quota) <==> used
            + additional > quota),
        quota != 0 && used + additional > u64::MAX && quota < u64::MAX ==> exceeds(
            used,
            additional,
            quota,
        ),
        gb <= 17_179_869_183 ==> quota_of(gb) == gb * 1_073_741_824,
        gb > 17_179_869_183 ==> quota_of(gb) == u64::MAX,
{
}

/// On the day of the last use the bytes of that day still count, and on another none do;
/// the total and the quota stay.
pub proof fn lemma_counts_of_a_day(stored: BandwidthState, today: Seq<char>, r: BandwidthState)
    requires
        on_day(Some(stored), today, r),
    ensures
        r.date@ == today,
        stored.date@ == today ==> r.used_today_bytes == stored.used_today_bytes,
        stored.date@ != today ==> r.used_today_bytes == 0,
        r.total_used_bytes == stored.total_used_bytes,
        r.quota_bytes == stored.quota_bytes,
{
}

/// A count that begins allows 250 gibibytes a day.
pub proof fn lemma_first_count(today: Seq<char>, r: BandwidthState)
    requires
        on_day(None, today, r),
    ensures
        r.date@ == today,
        r.used_today_bytes == 0,
        r.total_used_bytes == 0,
        r.quota_bytes == 268_435_456_000,
{
}

/// The text of a moment names the day that began with its last multiple of 86,400 seconds:
/// the year, the month and the day in two digits each.
pub proof fn lemma_date_text(secs: u64, text: Seq<char>)
    requires
        is_date_text(secs, text),
    ensures
        exists|y: int, m: int, d: int|
            {
                &&& #[trigger] is_date(y, m, d)
                &&& day_number(y, m, d) * 86_400 <= secs < (day_number(y, m, d) + 1) * 86_400
                &&& text.len() >= 10
                &&& text.skip(text.len() - 2) == padded(d as nat, 2)
                &&& text[text.len() - 3] == '-'
                &&& text.subrange(text.len() - 5, text.len() - 3) == padded(m as nat, 2)
                &&& text[text.len() - 6] == '-'
                &&& text.take(text.len() - 6) == padded_signed(low_i32(y), 4)
            },
{
    let (y, m, d) = choose|y: int, m: int, d: int| #[trigger]
        is_date(y, m, d) && day_number(y, m, d) == secs as int / SECS_PER_DAY as int && text
            == padded_signed(low_i32(y), 4) + "-"@ + padded(m as nat, 2) + "-"@ + padded(
            d as nat,
            2,
        );
    reveal_strlit("-");
    let year = padded_signed(low_i32(y), 4);
    lemma_padding_keeps_the_value(m as nat, 2);
    lemma_padding_keeps_the_value(d as nat, 2);
    lemma_two_digits(m as nat);
    lemma_two_digits(d as nat);
    assert(1 <= m <= 12 && 1 <= d <= 31);
    assert(padded(m as nat, 2).len() == 2);
    assert(padded(d as nat, 2).len() == 2);
    lemma_year_is_long(low_i32(y));
    let n = text.len() as int;
    assert(text.skip(n - 2) =~= padded(d as nat, 2));
    assert(text.subrange(n - 5, n - 3) =~= padded(m as nat, 2));
    assert(text.take(n - 6) =~= year);
    assert(is_date(y, m, d));
}

pub(crate) proof fn lemma_two_digits(n: nat)
    requires
        n < 100,
    ensures
        decimal(n).len() <= 2,
{
    reveal_with_fuel(decimal, 2);
}

proof fn lemma_year_is_long(y: int)
    ensures
        padded_signed(y, 4).len() >= 4,
{
    if y < 0 {
        lemma_decimal_reads_back((-y) as nat);
    } else {
        lemma_decimal_reads_back(y as nat);
    }
}

/// A day is the date that lies as many days behind the first of January 1970, and there is
/// no other date for it.
pub proof fn lemma_one_date_for_a_day(days: i64, y: int, m: int, d: int, y2: int, m2: int, d2: int)
    requires
        is_day(days, y, m, d),
        is_day(days, y2, m2, d2),
    ensures
        1 <= m <= 12,
        1 <= d <= days_in_month(y, m),
        day_number(y, m, d) == days,
        y == y2 && m == m2 && d == d2,
{
    lemma_day_number_tells_dates_apart(y, m, d, y2, m2, d2);
}

} // verus!
