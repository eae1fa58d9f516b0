use omniget_telegram::platforms::telegram::models::{
    Document, DocumentData, FileLocation, Message, MessageData, MessageMedia, MessagesReply, Peer,
    Photo, PhotoData, PhotoSize,
};
use omniget_telegram::platforms::telegram::parallel_download::{
    after_export, classify_refusal, compute_thread_count, download_file, download_file_parallel,
    ensure_auth_on_dc, fetch_raw_media, get_max_threads_cap, media_to_location,
    mime_type_from_media, plan_segments, set_max_threads_cap, stream_file_range, AuthCopies,
    ChunkStep, DownloadPlan, ExportOutcome, ExportStep, FileError, SequentialDownload,
    StreamSpeedTracker, StreamStep, ThreadCap, Worker,
};

const KB: u64 = 1024;
const MB: u64 = KB * 1024;

#[test]
fn small_file_under_1mb_uses_1_thread() {
    assert_eq!(compute_thread_count(0, &ThreadCap::new()), 1);
    assert_eq!(compute_thread_count(500 * KB, &ThreadCap::new()), 1);
    assert_eq!(compute_thread_count(MB - 1, &ThreadCap::new()), 1);
}

#[test]
fn between_1mb_and_5mb_uses_2_threads() {
    assert_eq!(compute_thread_count(MB, &ThreadCap::new()), 2);
    assert_eq!(compute_thread_count(2 * MB, &ThreadCap::new()), 2);
    assert_eq!(compute_thread_count(5 * MB - 1, &ThreadCap::new()), 2);
}

#[test]
fn between_5mb_and_20mb_uses_4_threads() {
    assert_eq!(compute_thread_count(5 * MB, &ThreadCap::new()), 4);
    assert_eq!(compute_thread_count(10 * MB, &ThreadCap::new()), 4);
    assert_eq!(compute_thread_count(20 * MB - 1, &ThreadCap::new()), 4);
}

#[test]
fn between_20mb_and_50mb_uses_4_fallback() {
    assert_eq!(compute_thread_count(20 * MB, &ThreadCap::new()), 4);
    assert_eq!(compute_thread_count(30 * MB, &ThreadCap::new()), 4);
    assert_eq!(compute_thread_count(50 * MB - 1, &ThreadCap::new()), 4);
}

#[test]
fn at_50mb_or_above_uses_8_threads() {
    assert_eq!(compute_thread_count(50 * MB, &ThreadCap::new()), 8);
    assert_eq!(compute_thread_count(100 * MB, &ThreadCap::new()), 8);
    assert_eq!(compute_thread_count(1000 * MB, &ThreadCap::new()), 8);
}

fn document(size: i64, mime: &str) -> MessageMedia {
    MessageMedia::Document(Some(Document::Document(DocumentData {
        id: 7,
        access_hash: 8,
        file_reference: vec![1, 2],
        dc_id: 4,
        size,
        mime_type: mime.to_string(),
        attributes: vec![],
        thumbs: None,
    })))
}

fn photo(sizes: Vec<PhotoSize>) -> MessageMedia {
    MessageMedia::Photo(Some(Photo::Photo(PhotoData {
        id: 9,
        access_hash: 10,
        file_reference: vec![3],
        dc_id: 2,
        sizes,
    })))
}

fn size(kind: &str, size: i32) -> PhotoSize {
    PhotoSize::Size { kind: kind.to_string(), size }
}

#[test]
fn the_cap_is_kept_between_1_and_32() {
    let mut cap = ThreadCap::new();
    assert_eq!(get_max_threads_cap(&cap), 8);
    set_max_threads_cap(&mut cap, 0);
    assert_eq!(get_max_threads_cap(&cap), 1);
    assert_eq!(compute_thread_count(100 * MB, &cap), 1);
    set_max_threads_cap(&mut cap, 100);
    assert_eq!(get_max_threads_cap(&cap), 32);
    assert_eq!(compute_thread_count(100 * MB, &cap), 8);
    set_max_threads_cap(&mut cap, 3);
    assert_eq!(compute_thread_count(10 * MB, &cap), 3);
    assert_eq!(compute_thread_count(2 * MB, &cap), 2);
}

#[test]
fn small_and_empty_files_are_downloaded_in_sequence() {
    let cap = ThreadCap::new();
    assert!(matches!(download_file(0, &cap), DownloadPlan::Sequential));
    assert!(matches!(download_file(MB - 1, &cap), DownloadPlan::Sequential));
    assert!(matches!(download_file(MB, &cap), DownloadPlan::Parallel { threads: 2 }));
    assert!(matches!(download_file(60 * MB, &cap), DownloadPlan::Parallel { threads: 8 }));
}

#[test]
fn samples_leave_after_five_seconds() {
    let mut speed = StreamSpeedTracker::new();
    assert_eq!(speed.total(), 0);
    assert_eq!(speed.span(), None);
    speed.record(1_000_000_000, 10);
    speed.record(4_000_000_000, 20);
    assert_eq!(speed.total(), 30);
    assert_eq!(speed.span(), Some((1_000_000_000, 4_000_000_000)));
    speed.record(6_000_000_001, 5);
    assert_eq!(speed.total(), 25);
    assert_eq!(speed.span(), Some((4_000_000_000, 6_000_000_001)));
}

#[test]
fn a_document_has_a_location() {
    let found = media_to_location(&document(1234, "video/mp4")).unwrap();
    assert_eq!((found.size, found.dc_id), (1234, 4));
    match found.location {
        FileLocation::Document { id, access_hash, file_reference, thumb_size } => {
            assert_eq!((id, access_hash), (7, 8));
            assert_eq!(file_reference, vec![1, 2]);
            assert_eq!(thumb_size, "");
        }
        _ => panic!("not a document"),
    }
    assert_eq!(mime_type_from_media(&document(1, "video/mp4")), "video/mp4");
}

#[test]
fn the_largest_size_of_a_photo_is_taken() {
    let found = media_to_location(&photo(vec![
        size("s", 10),
        PhotoSize::Other,
        size("x", 300),
        size("m", 20),
    ]))
    .unwrap();
    assert_eq!((found.size, found.dc_id), (300, 2));
    match found.location {
        FileLocation::Photo { id, access_hash, file_reference, thumb_size } => {
            assert_eq!((id, access_hash), (9, 10));
            assert_eq!(file_reference, vec![3]);
            assert_eq!(thumb_size, "x");
        }
        _ => panic!("not a photo"),
    }
    assert_eq!(mime_type_from_media(&photo(vec![])), "image/jpeg");
}

#[test]
fn other_media_have_no_location() {
    assert!(media_to_location(&MessageMedia::Geo).is_none());
    assert!(media_to_location(&MessageMedia::Photo(None)).is_none());
    assert!(media_to_location(&MessageMedia::Document(Some(Document::Empty))).is_none());
    assert_eq!(mime_type_from_media(&MessageMedia::Geo), "application/octet-stream");
    assert_eq!(
        mime_type_from_media(&MessageMedia::Document(None)),
        "application/octet-stream"
    );
}

fn message(id: i32, date: i32, media: Option<MessageMedia>) -> Message {
    Message::Message(MessageData {
        id,
        date,
        peer: Peer::Channel(1),
        text: String::new(),
        grouped_id: None,
        media,
    })
}

#[test]
fn the_media_of_a_message_is_found() {
    let reply = MessagesReply::Slice(vec![
        Message::Empty { id: 5 },
        message(6, 60, Some(MessageMedia::Geo)),
        message(7, 70, Some(MessageMedia::Poll)),
    ]);
    let (media, date) = fetch_raw_media(reply, 6).unwrap();
    assert!(matches!(media, MessageMedia::Geo));
    assert_eq!(date, 60);
    match fetch_raw_media(MessagesReply::NotModified, 7) {
        Err(text) => assert_eq!(text, "Message 7 not found"),
        Ok(_) => panic!("found"),
    }
    let bare = MessagesReply::Messages(vec![message(7, 70, None)]);
    match fetch_raw_media(bare, 7) {
        Err(text) => assert_eq!(text, "Message 7 has no media"),
        Ok(_) => panic!("found"),
    }
}

#[test]
fn an_authorization_is_copied_once() {
    let mut copies = AuthCopies::new();
    assert!(ensure_auth_on_dc(4, Some(2), &copies));
    assert!(!ensure_auth_on_dc(2, Some(2), &copies));
    copies.mark(4);
    copies.mark(4);
    assert!(copies.contains(4));
    assert!(!ensure_auth_on_dc(4, Some(2), &copies));
    copies.forget(4);
    assert!(!copies.contains(4));
    assert!(ensure_auth_on_dc(4, None, &copies));
}

#[test]
fn an_export_to_the_home_data_center_is_skipped() {
    let mut copies = AuthCopies::new();
    assert!(matches!(
        after_export(&mut copies, 4, &ExportOutcome::Exported),
        ExportStep::Import
    ));
    assert!(!copies.contains(4));
    let home = ExportOutcome::Refused {
        name: "DC_ID_INVALID".to_string(),
        text: "rpc error".to_string(),
    };
    copies.mark(2);
    assert!(matches!(after_export(&mut copies, 4, &home), ExportStep::Skip));
    assert!(copies.contains(4) && copies.contains(2));
    let other = ExportOutcome::Refused {
        name: "X".to_string(),
        text: "rpc error 400: X".to_string(),
    };
    match after_export(&mut copies, 5, &other) {
        ExportStep::Fail(text) => {
            assert_eq!(text, "ExportAuthorization to DC 5: rpc error 400: X")
        }
        _ => panic!("not a failure"),
    }
    let lost = ExportOutcome::Failed { text: "gone".to_string() };
    match after_export(&mut copies, 5, &lost) {
        ExportStep::Fail(text) => assert_eq!(text, "ExportAuthorization to DC 5: gone"),
        _ => panic!("not a failure"),
    }
}

#[test]
fn refusals_of_a_file_are_told_apart() {
    assert!(matches!(
        classify_refusal("AUTH_KEY_UNREGISTERED", 401, None, 2),
        FileError::AuthLost
    ));
    assert!(matches!(
        classify_refusal("FILE_MIGRATE", 303, Some(4), 2),
        FileError::Migrate { dc: 4 }
    ));
    assert!(matches!(
        classify_refusal("FILE_MIGRATE", 303, None, 2),
        FileError::Migrate { dc: 2 }
    ));
    assert!(matches!(classify_refusal("X", 400, Some(4), 2), FileError::Other));
}

#[test]
fn a_sequence_ends_with_a_short_chunk() {
    let mut d = SequentialDownload::new();
    assert!(matches!(d.take_chunk(524_288), ChunkStep::WriteMore));
    assert_eq!((d.downloaded, d.offset), (524_288, 524_288));
    assert!(matches!(d.take_chunk(100), ChunkStep::WriteLast));
    assert_eq!((d.downloaded, d.offset), (524_388, 1_048_576));
    assert!(matches!(d.take_chunk(0), ChunkStep::End));
    assert_eq!(d.downloaded, 524_388);
}

#[test]
fn workers_share_a_file_in_whole_chunks() {
    let chunk = 524_288;
    assert_eq!(
        plan_segments(8 * chunk, 2),
        vec![(0, 4 * chunk), (4 * chunk, 8 * chunk)]
    );
    assert_eq!(
        plan_segments(4 * chunk - 5, 4),
        vec![
            (0, chunk),
            (chunk, 2 * chunk),
            (2 * chunk, 3 * chunk),
            (3 * chunk, 4 * chunk - 5),
        ]
    );
    assert_eq!(plan_segments(10, 4), vec![(0, 10)]);
    assert_eq!(plan_segments(3 * chunk, 2), vec![(0, chunk), (chunk, 2 * chunk)]);
}

#[test]
fn a_worker_walks_its_part() {
    let mut w = Worker { offset: 524_288, end: 1_048_600 };
    assert_eq!(w.next_offset(), Some(524_288));
    assert!(matches!(w.take_chunk(524_288), ChunkStep::WriteMore));
    assert_eq!(w.next_offset(), Some(1_048_576));
    assert!(matches!(w.take_chunk(24), ChunkStep::WriteLast));
    assert_eq!(w.next_offset(), None);
    let mut w = Worker { offset: 0, end: 10 };
    assert!(matches!(w.take_chunk(0), ChunkStep::End));
}

#[test]
fn the_first_failure_of_the_workers_is_reported() {
    assert!(download_file_parallel(&vec![Ok(()), Ok(())]).is_ok());
    assert!(download_file_parallel(&vec![]).is_ok());
    let results = vec![Ok(()), Err("a".to_string()), Err("b".to_string())];
    assert_eq!(download_file_parallel(&results), Err("a".to_string()));
}

#[test]
fn a_range_is_cut_out_of_whole_chunks() {
    let mut s = stream_file_range(524_290, 524_300);
    assert_eq!((s.total, s.offset, s.skip), (11, 524_288, 2));
    assert!(!s.is_done());
    match s.take_chunk(524_288) {
        StreamStep::Send { from, to, .. } => assert_eq!((from, to), (2, 13)),
        _ => panic!("nothing sent"),
    }
    assert!(s.is_done());
    assert_eq!(s.emitted, 11);
}

#[test]
fn a_range_goes_on_into_the_next_chunk() {
    let mut s = stream_file_range(524_280, 524_299);
    match s.take_chunk(524_288) {
        StreamStep::Send { from, to, last } => {
            assert_eq!((from, to, last), (524_280, 524_288, false))
        }
        _ => panic!("nothing sent"),
    }
    assert_eq!(s.offset, 524_288);
    match s.take_chunk(5) {
        StreamStep::Send { from, to, last } => assert_eq!((from, to, last), (0, 5, true)),
        _ => panic!("nothing sent"),
    }
    assert!(!s.is_done());
}

#[test]
fn an_empty_chunk_ends_a_stream() {
    let mut s = stream_file_range(0, 9);
    assert!(matches!(s.take_chunk(0), StreamStep::Stop));
    let mut s = stream_file_range(100, 109);
    assert!(matches!(s.take_chunk(50), StreamStep::Skip));
    assert_eq!(s.skip, 50);
}
