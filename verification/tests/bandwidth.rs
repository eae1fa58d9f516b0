use omniget_telegram::platforms::telegram::bandwidth::{
    load, record_bytes, reset_today, set_quota_gb, state_path, today_date, unix_days_to_ymd_pub,
    would_exceed, BandwidthState, FIRST_DAY, LAST_DAY,
};

#[test]
fn unix_days_epoch_is_1970_01_01() {
    let (y, m, d) = unix_days_to_ymd_pub(0);
    assert_eq!((y, m, d), (1970, 1, 1));
}

#[test]
fn unix_days_jan_1_2000_is_day_10957() {
    let (y, m, d) = unix_days_to_ymd_pub(10_957);
    assert_eq!((y, m, d), (2000, 1, 1));
}

#[test]
fn unix_days_handles_leap_year_feb_29() {
    let (y, m, d) = unix_days_to_ymd_pub(11_016);
    assert_eq!((y, m, d), (2000, 2, 29));
}

fn state(used: u64, total: u64, date: &str, quota: u64) -> BandwidthState {
    BandwidthState {
        used_today_bytes: used,
        total_used_bytes: total,
        date: date.to_string(),
        quota_bytes: quota,
    }
}

#[test]
fn days_before_the_epoch_have_dates() {
    assert_eq!(unix_days_to_ymd_pub(-1), (1969, 12, 31));
    assert_eq!(unix_days_to_ymd_pub(-719_468), (0, 3, 1));
    assert_eq!(unix_days_to_ymd_pub(-719_469), (0, 2, 29));
}

#[test]
fn centuries_are_leap_years_every_fourth_time() {
    assert_eq!(unix_days_to_ymd_pub(-25_508), (1900, 3, 1));
    assert_eq!(unix_days_to_ymd_pub(-25_509), (1900, 2, 28));
    assert_eq!(unix_days_to_ymd_pub(11_017), (2000, 3, 1));
    assert_eq!(unix_days_to_ymd_pub(20_772), (2026, 11, 15));
}

#[test]
fn the_far_ends_of_the_calendar_have_dates() {
    assert_eq!(unix_days_to_ymd_pub(FIRST_DAY).0, i32::MIN);
    assert_eq!(unix_days_to_ymd_pub(LAST_DAY), (i32::MAX, 12, 31));
    assert_eq!(unix_days_to_ymd_pub(LAST_DAY + 1), (i32::MIN, 1, 1));
}

#[test]
fn dates_are_padded() {
    assert_eq!(today_date(0), "1970-01-01");
    assert_eq!(today_date(86_399), "1970-01-01");
    assert_eq!(today_date(86_400), "1970-01-02");
    assert_eq!(today_date(951_782_400), "2000-02-29");
}

#[test]
fn a_fresh_state_has_the_default_quota() {
    let s = BandwidthState::fresh("2026-01-01");
    assert_eq!(s.used_today_bytes, 0);
    assert_eq!(s.total_used_bytes, 0);
    assert_eq!(s.date, "2026-01-01");
    assert_eq!(s.quota_bytes, 250 * 1024 * 1024 * 1024);
}

#[test]
fn a_new_day_begins_at_nought_and_keeps_the_total() {
    let (s, changed) = load(Some(state(7, 100, "2026-01-01", 50)), "2026-01-02");
    assert!(changed);
    assert_eq!((s.used_today_bytes, s.total_used_bytes, s.quota_bytes), (0, 100, 50));
    assert_eq!(s.date, "2026-01-02");
    let (s, changed) = load(Some(state(7, 100, "2026-01-02", 50)), "2026-01-02");
    assert!(!changed);
    assert_eq!(s.used_today_bytes, 7);
    let (s, _) = load(None, "2026-01-02");
    assert_eq!(s.date, "2026-01-02");
}

#[test]
fn bytes_are_counted_twice() {
    let s = record_bytes(Some(state(7, 100, "d", 50)), 3, "d").unwrap();
    assert_eq!((s.used_today_bytes, s.total_used_bytes), (10, 103));
    assert!(record_bytes(Some(state(7, 100, "d", 50)), 0, "d").is_none());
    let s = record_bytes(Some(state(u64::MAX, u64::MAX, "d", 50)), 3, "d").unwrap();
    assert_eq!((s.used_today_bytes, s.total_used_bytes), (u64::MAX, u64::MAX));
}

#[test]
fn the_quota_is_set_in_gigabytes() {
    let s = set_quota_gb(None, 2, "d");
    assert_eq!(s.quota_bytes, 2_147_483_648);
    let s = set_quota_gb(None, u64::MAX, "d");
    assert_eq!(s.quota_bytes, u64::MAX);
}

#[test]
fn the_day_can_begin_anew() {
    let s = reset_today(Some(state(7, 100, "d", 50)), "d");
    assert_eq!((s.used_today_bytes, s.total_used_bytes), (0, 100));
}

#[test]
fn a_quota_of_nought_is_none() {
    assert!(!would_exceed(Some(state(7, 100, "d", 0)), u64::MAX, "d"));
    assert!(!would_exceed(Some(state(7, 100, "d", 10)), 3, "d"));
    assert!(would_exceed(Some(state(7, 100, "d", 10)), 4, "d"));
    assert!(!would_exceed(Some(state(7, 100, "d", 10)), 4, "e"));
}

#[test]
fn the_state_has_its_file() {
    assert_eq!(state_path().parts, vec!["bandwidth.json".to_string()]);
}
