use omniget_telegram::encoding::picture_text;
use omniget_telegram::host_queue::{
    next_queue_id, report_complete, report_progress, QueueCounter, ThrottleMap,
};
use omniget_telegram::json::{
    cut_i32, cut_u32, cut_u8, get, get_either, integer, read_bool, read_i64, read_str, read_u64,
    set_field, Json, Number,
};
use omniget_telegram::platforms::telegram::parallel_download::{get_max_threads_cap, ThreadCap};
use omniget_telegram::platforms::telegram::sync_state::{interval_min, is_enabled, SyncState};
use omniget_telegram::preview_cache::{prune, PreviewDiskCache, PreviewFile};
use omniget_telegram::settings::{
    concurrent_downloads, fix_file_extensions, initialize, perf_get, perf_set, sync_settings_set,
};

fn number(n: u64) -> Json {
    Json::Number(Number::Unsigned(n))
}

fn object(entries: Vec<(&str, Json)>) -> Json {
    Json::Object(entries.into_iter().map(|(k, v)| (k.to_string(), v)).collect())
}

// ------------------------------------------------------------ values

#[test]
fn values_are_read_by_their_kind() {
    assert_eq!(read_i64(&number(5)), Some(5));
    assert_eq!(read_i64(&number(u64::MAX)), None);
    assert_eq!(read_i64(&Json::Number(Number::Negative(-5))), Some(-5));
    assert_eq!(read_i64(&Json::Number(Number::Other)), None);
    assert_eq!(read_u64(&number(u64::MAX)), Some(u64::MAX));
    assert_eq!(read_u64(&Json::Number(Number::Negative(-5))), None);
    assert_eq!(read_bool(&Json::Bool(true)), Some(true));
    assert_eq!(read_bool(&number(1)), None);
    assert_eq!(read_str(&Json::Text("x".to_string())).as_deref(), Some("x"));
    assert_eq!(read_str(&Json::Null), None);
    assert_eq!(integer(&number(5), 0, 4), None);
    assert_eq!(integer(&number(4), 0, 4), Some(4));
}

#[test]
fn numbers_are_cut() {
    assert_eq!(cut_i32(4294967297), 1);
    assert_eq!(cut_i32(2147483648), i32::MIN);
    assert_eq!(cut_i32(-1), -1);
    assert_eq!(cut_i32(i64::MIN), 0);
    assert_eq!(cut_u8(257), 1);
    assert_eq!(cut_u8(-1), 255);
    assert_eq!(cut_u32(0x1_0000_0005), 5);
}

#[test]
fn entries_are_found_and_set() {
    let j = object(vec![("a", number(1)), ("b", number(2))]);
    assert!(matches!(get(&j, "b"), Some(Json::Number(Number::Unsigned(2)))));
    assert!(get(&j, "c").is_none());
    assert!(get(&Json::Null, "a").is_none());
    assert!(matches!(get_either(&j, "c", "a"), Some(Json::Number(Number::Unsigned(1)))));
    let j = set_field(j, "a", number(9));
    assert!(matches!(get(&j, "a"), Some(Json::Number(Number::Unsigned(9)))));
    assert!(matches!(get(&j, "b"), Some(Json::Number(Number::Unsigned(2)))));
    let j = set_field(Json::Null, "a", number(9));
    assert!(matches!(get(&j, "a"), Some(Json::Number(Number::Unsigned(9)))));
}

#[test]
fn pictures_are_written_in_letters() {
    assert_eq!(picture_text(&b"hello".to_vec()), "aGVsbG8=");
    assert_eq!(picture_text(&vec![255, 254, 253, 252]), "//79/A==");
    assert_eq!(picture_text(&vec![]), "");
}

// ------------------------------------------------------------ settings

#[test]
fn settings_have_defaults_and_ranges() {
    assert!(!fix_file_extensions(&Json::Null));
    assert!(fix_file_extensions(&object(vec![("fix_file_extensions", Json::Bool(true))])));
    assert!(!fix_file_extensions(&object(vec![("fix_file_extensions", number(1))])));
    assert_eq!(concurrent_downloads(&Json::Null), 3);
    let with = |n: u64| concurrent_downloads(&object(vec![("concurrent_downloads", number(n))]));
    assert_eq!((with(0), with(5), with(50)), (1, 5, 10));
}

#[test]
fn saved_settings_are_taken_over() {
    let mut cap = ThreadCap::new();
    let mut sync = SyncState::new();
    initialize(&Json::Null, &mut cap, &mut sync);
    assert_eq!(get_max_threads_cap(&cap), 8);
    assert!(is_enabled(&sync) && interval_min(&sync) == 30);
    let saved = object(vec![
        ("max_threads", number(100)),
        ("sync_enabled", Json::Bool(false)),
        ("sync_interval_min", number(0x1_0000_000A)),
    ]);
    initialize(&saved, &mut cap, &mut sync);
    assert_eq!(get_max_threads_cap(&cap), 32);
    assert!(!is_enabled(&sync) && interval_min(&sync) == 10);
}

#[test]
fn settings_that_are_saved_return() {
    let mut sync = SyncState::new();
    let saved = sync_settings_set(&mut sync, Some(false), Some(45), object(vec![("x", number(1))]));
    assert!(get(&saved, "x").is_some());
    let mut cap = ThreadCap::new();
    let saved = perf_set(&mut cap, 0, saved);
    assert_eq!(get_max_threads_cap(&cap), 1);
    let mut next_cap = ThreadCap::new();
    let mut next = SyncState::new();
    initialize(&saved, &mut next_cap, &mut next);
    assert!(!is_enabled(&next) && interval_min(&next) == 45);
    assert_eq!(get_max_threads_cap(&next_cap), 1);
    let mut sync = SyncState::new();
    let _ = sync_settings_set(&mut sync, None, None, Json::Null);
    assert!(is_enabled(&sync) && interval_min(&sync) == 30);
}

#[test]
fn the_use_of_workers_is_told() {
    let info = perf_get(&ThreadCap::new());
    assert_eq!((info.max_threads, info.max_part_size_kb), (8, 1024));
    let rows: Vec<(u32, u32, usize)> =
        info.buckets.iter().map(|b| (b.min_mb, b.max_mb, b.threads)).collect();
    assert_eq!(rows, vec![(0, 1, 1), (1, 5, 2), (5, 20, 4), (20, 50, 4), (50, 0, 8)]);
}

// ------------------------------------------------------------ the queue

#[test]
fn queue_ids_rise_with_the_clock() {
    let mut c = QueueCounter::new();
    assert_eq!(next_queue_id(&mut c, 5), 5001);
    assert_eq!(next_queue_id(&mut c, 5), 5002);
    assert_eq!(next_queue_id(&mut c, 6), 6003);
    assert_eq!(next_queue_id(&mut c, u64::MAX), u64::MAX.wrapping_mul(1000).wrapping_add(4));
}

#[test]
fn reports_are_a_quarter_of_a_second_apart() {
    let ms = 1_000_000;
    let mut t = ThrottleMap::new();
    assert!(report_progress(&mut t, 1, 0));
    assert!(!report_progress(&mut t, 1, 250 * ms - 1));
    assert!(report_progress(&mut t, 2, 10 * ms));
    assert!(report_progress(&mut t, 1, 250 * ms));
    assert!(!report_progress(&mut t, 1, 499 * ms));
    report_complete(&mut t, 1);
    assert!(report_progress(&mut t, 1, 499 * ms));
}

// ------------------------------------------------------------ previews

fn preview(name: &str, size: u64, used_at: i64) -> PreviewFile {
    PreviewFile { name: name.to_string(), size, used_at }
}

#[test]
fn names_of_previews_are_safe() {
    let c = PreviewDiskCache::new(30, 100);
    assert_eq!(c.path_for("aZ09-_").parts, vec!["aZ09-_.bin".to_string()]);
    assert_eq!(c.path_for("../é x").parts, vec!["_____x.bin".to_string()]);
    assert_eq!(c.path_for("").parts, vec![".bin".to_string()]);
}

#[test]
fn the_oldest_previews_are_removed() {
    let cache = PreviewDiskCache::new(2, 100);
    let mut p = prune(vec![preview("a", 10, 3), preview("b", 60, 1), preview("c", 50, 2)]);
    let first = p.prune_locked(&cache).unwrap();
    assert_eq!(first.name, "b");
    p.removed(first.size);
    assert!(p.prune_locked(&cache).is_none());
    let cache = PreviewDiskCache::new(5, 55);
    let mut p = prune(vec![preview("a", 10, 3), preview("b", 60, 1), preview("c", 50, 2)]);
    assert_eq!(p.prune_locked(&cache).unwrap().name, "b");
    assert_eq!(p.prune_locked(&cache).unwrap().name, "c");
    p.removed(50);
    assert_eq!(p.prune_locked(&cache).unwrap().name, "a");
    assert!(p.prune_locked(&cache).is_none());
}
