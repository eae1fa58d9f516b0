use omniget_telegram::platforms::telegram::download::{
    download_media, download_media_with_retry, file_time, partial_path, refetch_given,
    refetch_reference, retry_given,
};
use omniget_telegram::platforms::telegram::session::Session;
use omniget_telegram::platforms::telegram::sync_state::{
    begin_sync, finish_sync, interval_min, is_due, is_enabled, pause_secs, set_enabled,
    set_interval_min, snapshot, SyncState,
};

#[test]
fn a_download_goes_through_the_channel_of_its_message() {
    let mut s = Session::new();
    assert!(download_media(&s, 1, "channel", 2).is_err());
    s.authenticated = true;
    s.peer_hashes.put(1, 9);
    let t = download_media(&s, 1, "group", 2).ok().unwrap();
    assert_eq!((t.chat_id, t.access_hash, t.is_channel, t.message_id), (1, 9, true, 2));
    assert!(!download_media(&s, 3, "group", 2).ok().unwrap().is_channel);
    assert!(download_media(&s, 3, "channel", 2).ok().unwrap().is_channel);
}

#[test]
fn files_are_named_and_dated() {
    assert_eq!(partial_path("/a/b.mp4"), "/a/b.mp4.tmp");
    assert_eq!(file_time(5), Some(5));
    assert_eq!(file_time(0), None);
    assert_eq!(file_time(-5), None);
}

#[test]
fn expired_references_are_fetched_twice_more() {
    assert!(refetch_reference(0, "FILE_REFERENCE_EXPIRED"));
    assert!(refetch_reference(1, "file_reference_2"));
    assert!(!refetch_reference(2, "FILE_REFERENCE_EXPIRED"));
    assert!(!refetch_reference(0, "other"));
    assert!(!refetch_given(0, "FILE_REFERENCE"));
}

#[test]
fn delays_double_from_try_to_try() {
    let secs: Vec<Option<u64>> =
        (0..6).map(|n| download_media_with_retry(n, "connection reset")).collect();
    assert_eq!(secs, vec![Some(2), Some(4), Some(8), Some(16), None, None]);
    assert_eq!(download_media_with_retry(0, "FLOOD_WAIT_9"), Some(2));
    assert_eq!(download_media_with_retry(0, "Download cancelled"), None);
    assert_eq!(retry_given(1, "x", true), Some(4));
    assert_eq!(retry_given(1, "x", false), None);
}

#[test]
fn refreshes_run_one_at_a_time() {
    let mut s = SyncState::new();
    assert!(is_enabled(&s));
    assert_eq!(interval_min(&s), 30);
    assert!(begin_sync(&mut s));
    assert!(!begin_sync(&mut s));
    assert_eq!(finish_sync(&mut s, Some(4), 99, 0x1_0000_0007), Some(4));
    let now = snapshot(&s);
    assert!(!now.is_syncing);
    assert_eq!((now.last_success_at, now.last_duration_ms, now.last_updated_count), (99, 7, 4));
    assert!(begin_sync(&mut s));
    assert_eq!(finish_sync(&mut s, None, 100, 5), None);
    assert_eq!(snapshot(&s).last_success_at, 99);
}

#[test]
fn the_interval_is_kept_in_range() {
    let mut s = SyncState::new();
    set_interval_min(&mut s, 1);
    assert_eq!(interval_min(&s), 5);
    set_interval_min(&mut s, 1000);
    assert_eq!(interval_min(&s), 360);
    set_interval_min(&mut s, 45);
    assert_eq!(pause_secs(&s), 2700);
    assert!(is_due(&s, true) && !is_due(&s, false));
    set_enabled(&mut s, false);
    assert!(!is_due(&s, true));
}
