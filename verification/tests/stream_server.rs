use omniget_telegram::platforms::telegram::models::{Document, DocumentData, MessageMedia};
use omniget_telegram::platforms::telegram::session::Session;
use omniget_telegram::platforms::telegram::stream_server::{
    admit_request, base_url, content_headers, generate_token, handle_options, handle_stream,
    not_found, not_modified_headers, parse_range_header, token_text, StreamReply,
    StreamServerInfo,
};

fn video(size: i64) -> MessageMedia {
    MessageMedia::Document(Some(Document::Document(DocumentData {
        id: 1,
        access_hash: 2,
        file_reference: vec![],
        dc_id: 3,
        size,
        mime_type: "video/mp4".to_string(),
        attributes: vec![],
        thumbs: None,
    })))
}

#[test]
fn the_server_has_an_address() {
    let info = StreamServerInfo { port: 8080, token: String::new() };
    assert_eq!(base_url(&info), "http://127.0.0.1:8080");
}

#[test]
fn tokens_are_random_digits() {
    assert_eq!(token_text(&vec![0, 10, 255]), "000aff");
    let a = generate_token();
    let b = generate_token();
    assert_eq!(a.len(), 48);
    assert!(a.chars().all(|c| c.is_ascii_hexdigit()));
    assert!(a != b);
}

#[test]
fn ranges_are_read() {
    let range = |h: &str| parse_range_header(Some(h), 100);
    assert_eq!(parse_range_header(None, 100), (0, 99, false));
    assert_eq!(range("items=0-5"), (0, 99, false));
    assert_eq!(range("bytes=10-19"), (10, 19, true));
    assert_eq!(range("bytes=10-"), (10, 99, true));
    assert_eq!(range("bytes=-10"), (90, 99, true));
    assert_eq!(range("bytes=-500"), (0, 99, true));
    assert_eq!(range("bytes=10-500"), (10, 99, true));
    assert_eq!(range("bytes=500-600"), (99, 99, true));
    assert_eq!(range("bytes= 1-2 , 5-6"), (1, 2, true));
    assert_eq!(range("bytes=x-y"), (0, 99, true));
    assert_eq!(range("bytes=-x"), (100, 99, true));
    assert_eq!(range("bytes=-"), (0, 99, true));
    assert_eq!(range("bytes="), (0, 99, true));
    assert_eq!(range("bytes=+5-7"), (5, 7, true));
    assert_eq!(parse_range_header(Some("bytes=0-"), 0), (0, 0, true));
}

#[test]
fn requests_need_the_token_and_a_session() {
    let mut s = Session::new();
    let r = admit_request(Some("bad"), "good", &s, "channel", 1, 2).err().unwrap();
    assert_eq!((r.status, r.body.as_str()), (403, "invalid token"));
    assert_eq!(admit_request(None, "good", &s, "channel", 1, 2).err().unwrap().status, 403);
    let r = admit_request(Some("good"), "good", &s, "channel", 1, 2).err().unwrap();
    assert_eq!((r.status, r.body.as_str()), (503, "not authenticated"));
    s.authenticated = true;
    s.peer_hashes.put(1, 9);
    let t = admit_request(Some("good"), "good", &s, "group", 1, 2).ok().unwrap();
    assert_eq!((t.access_hash, t.is_channel, t.message_id), (9, true, 2));
    let r = not_found("Message 2 not found");
    assert_eq!((r.status, r.body.as_str()), (404, "fetch_raw_media: Message 2 not found"));
}

#[test]
fn files_are_served_whole_or_in_part() {
    match handle_stream(&video(100), 7, 8, None, None) {
        StreamReply::Content { mime, etag, start, end, length, content_range, .. } => {
            assert_eq!((mime.as_str(), etag.as_str()), ("video/mp4", "\"tg-7-8-100\""));
            assert_eq!((start, end, length), (0, 99, 100));
            assert_eq!(content_range, None);
        }
        _ => panic!("not served"),
    }
    match handle_stream(&video(100), -7, 8, Some("\"x\""), Some("bytes=10-19")) {
        StreamReply::Content { etag, start, end, length, content_range, .. } => {
            assert_eq!(etag, "\"tg--7-8-100\"");
            assert_eq!((start, end, length), (10, 19, 10));
            assert_eq!(content_range.as_deref(), Some("bytes 10-19/100"));
        }
        _ => panic!("not served"),
    }
    assert!(matches!(
        handle_stream(&video(100), 7, 8, Some("\"tg-7-8-100\""), None),
        StreamReply::NotModified { .. }
    ));
    match handle_stream(&MessageMedia::Geo, 7, 8, None, None) {
        StreamReply::Refused(r) => {
            assert_eq!((r.status, r.body.as_str()), (415, "unsupported media"))
        }
        _ => panic!("served"),
    }
}

#[test]
fn answers_have_headers() {
    let named = |list: &Vec<(&'static str, String)>, name: &str| -> Option<String> {
        list.iter().find(|h| h.0 == name).map(|h| h.1.clone())
    };
    let (status, list) = content_headers("video/mp4", "\"e\"", 10, &None);
    assert_eq!(status, 200);
    assert_eq!(named(&list, "content-type").as_deref(), Some("video/mp4"));
    assert_eq!(named(&list, "content-length").as_deref(), Some("10"));
    assert_eq!(named(&list, "accept-ranges").as_deref(), Some("bytes"));
    assert_eq!(named(&list, "etag").as_deref(), Some("\"e\""));
    assert_eq!(
        named(&list, "cache-control").as_deref(),
        Some("private, max-age=86400, immutable")
    );
    assert_eq!(
        named(&list, "last-modified").as_deref(),
        Some("Thu, 01 Jan 1970 00:00:00 GMT")
    );
    assert_eq!(named(&list, "access-control-allow-methods").as_deref(), Some("GET, HEAD, OPTIONS"));
    assert_eq!(named(&list, "content-range"), None);
    let part = Some("bytes 1-2/3".to_string());
    let (status, list) = content_headers("video/mp4", "\"e\"", 2, &part);
    assert_eq!(status, 206);
    assert_eq!(named(&list, "content-range"), part);
    let (status, list) = handle_options();
    assert_eq!((status, list.len()), (204, 3));
    assert_eq!(named(&list, "access-control-allow-origin").as_deref(), Some("*"));
    let list = not_modified_headers("\"e\"");
    assert_eq!(list.len(), 3);
    assert_eq!(named(&list, "etag").as_deref(), Some("\"e\""));
}
