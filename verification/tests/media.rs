use omniget_telegram::platforms::telegram::media::{
    add_extension, ensure_extension, extract_raw_media_info, extract_webpage_info_raw,
    media_filter, media_item, media_items, media_preview_label, mime_to_ext, unsigned_bits,
    MessagesFilter,
};
use omniget_telegram::platforms::telegram::models::{
    Document, DocumentAttribute, DocumentData, Message, MessageData, MessageMedia, PageData, Peer,
    Photo, PhotoData, PhotoSize, WebPage,
};

fn document(mime: &str, attributes: Vec<DocumentAttribute>) -> MessageMedia {
    MessageMedia::Document(Some(Document::Document(DocumentData {
        id: 77,
        access_hash: 1,
        file_reference: vec![],
        dc_id: 2,
        size: 500,
        mime_type: mime.to_string(),
        attributes,
        thumbs: None,
    })))
}

fn named(name: &str) -> DocumentAttribute {
    DocumentAttribute::Filename(name.to_string())
}

fn page(title: Option<&str>, site: Option<&str>) -> MessageMedia {
    MessageMedia::WebPage(WebPage::Page(PageData {
        url: "https://x.y".to_string(),
        site_name: site.map(|s| s.to_string()),
        title: title.map(|s| s.to_string()),
        description: None,
        embed_url: Some("e".to_string()),
        page_type: Some("video".to_string()),
        duration: Some(9),
    }))
}

fn message(id: i32, text: &str, media: Option<MessageMedia>) -> MessageData {
    MessageData {
        id,
        date: 100,
        peer: Peer::User(1),
        text: text.to_string(),
        grouped_id: Some(5),
        media,
    }
}

#[test]
fn types_have_extensions() {
    assert_eq!(mime_to_ext("video/mp4"), ".mp4");
    assert_eq!(mime_to_ext("audio/mp3"), ".mp3");
    assert_eq!(mime_to_ext("image/svg+xml"), ".svg");
    assert_eq!(mime_to_ext("application/vnd.ms-powerpoint"), ".ppt");
    assert_eq!(mime_to_ext("text/javascript"), ".js");
    assert_eq!(mime_to_ext("audio/webm"), ".webm");
    assert_eq!(mime_to_ext("x/jpeg"), ".jpg");
    assert_eq!(mime_to_ext("x/jpeg/y"), ".jpg");
    assert_eq!(mime_to_ext("x/unknown"), "");
    assert_eq!(mime_to_ext("plain"), "");
    assert_eq!(mime_to_ext(""), "");
}

#[test]
fn names_get_the_extension_of_their_type() {
    assert_eq!(ensure_extension("clip", "video/mp4"), "clip.mp4");
    assert_eq!(ensure_extension("clip.MP4", "video/webm"), "clip.MP4");
    assert_eq!(ensure_extension("clip.part1", "video/mp4"), "clip.part1.mp4");
    assert_eq!(ensure_extension("clip.xyz", "x/unknown"), "clip.xyz");
    assert_eq!(ensure_extension(".mp4", "video/mp4"), ".mp4.mp4");
    assert_eq!(ensure_extension("a.rs", "video/mp4"), "a.rs");
}

#[test]
fn the_last_component_has_the_extension() {
    assert_eq!(ensure_extension("a.mp4/b", "video/mp4"), "a.mp4/b.mp4");
    assert_eq!(ensure_extension("a/b.mkv", "video/mp4"), "a/b.mkv");
    assert_eq!(ensure_extension("b.mkv/", "video/mp4"), "b.mkv/");
    assert_eq!(ensure_extension("b.mkv/.", "video/mp4"), "b.mkv/.");
    assert_eq!(ensure_extension("b.mkv/..", "video/mp4"), "b.mkv/...mp4");
    assert_eq!(ensure_extension("a/.mp4", "video/mp4"), "a/.mp4.mp4");
    assert_eq!(ensure_extension("/", "video/mp4"), "/.mp4");
    assert_eq!(ensure_extension(".", "video/mp4"), "..mp4");
}

#[test]
fn colons_and_backslashes_leave_a_plain_extension() {
    assert_eq!(ensure_extension("Re: notes.pdf", "application/pdf"), "Re: notes.pdf");
    assert_eq!(ensure_extension("12:30.mp4", "video/webm"), "12:30.mp4");
    assert_eq!(ensure_extension("C:clip.mkv", "video/mp4"), "C:clip.mkv");
    assert_eq!(ensure_extension("a\\b.mkv", "video/mp4"), "a\\b.mkv");
    assert_eq!(ensure_extension("ab:c", "video/mp4"), "ab:c.mp4");
    assert_eq!(ensure_extension("a\\b", "video/mp4"), "a\\b.mp4");
    assert_eq!(ensure_extension("//host/share/a.mkv", "video/mp4"), "//host/share/a.mkv");
    assert_eq!(ensure_extension("//host/share/a", "video/mp4"), "//host/share/a.mp4");
}

#[test]
fn fixing_a_name_twice_adds_nothing() {
    let names = [
        "clip", "clip.part1", ".", "..", "a/b", "a/.", "x.MP4", "ü", "Re: a", "ab:c", "C:a", "a\\b",
        "//host", "//host/share/a",
    ];
    for name in names {
        for mime in ["video/mp4", "image/jpeg", "application/x-7z-compressed", "x/unknown"] {
            let once = ensure_extension(name, mime);
            assert_eq!(ensure_extension(&once, mime), once);
            let given = format!("f{}", mime_to_ext(mime));
            if given != "f" {
                assert_eq!(ensure_extension(&given, "audio/ogg"), given);
            }
        }
    }
}

#[test]
fn an_extension_that_was_read_decides() {
    assert_eq!(add_extension("n", Some("pdf"), "video/mp4"), "n");
    assert_eq!(add_extension("n", Some("PDF"), "video/mp4"), "n.mp4");
    assert_eq!(add_extension("n", None, "video/mp4"), "n.mp4");
    assert_eq!(add_extension("n", None, ""), "n");
}

#[test]
fn photos_take_their_largest_size() {
    let media = MessageMedia::Photo(Some(Photo::Photo(PhotoData {
        id: 31,
        access_hash: 0,
        file_reference: vec![],
        dc_id: 1,
        sizes: vec![
            PhotoSize::Size { kind: "s".to_string(), size: 4 },
            PhotoSize::Other,
            PhotoSize::Size { kind: "x".to_string(), size: 90 },
        ],
    })));
    assert_eq!(
        extract_raw_media_info(&media, false),
        Some(("photo_31.jpg".to_string(), 90, "photo".to_string()))
    );
    assert!(extract_raw_media_info(&MessageMedia::Photo(Some(Photo::Empty)), false).is_none());
    assert!(extract_raw_media_info(&MessageMedia::Photo(None), false).is_none());
}

#[test]
fn documents_are_named_and_classified() {
    let info = |m: &MessageMedia, fix: bool| extract_raw_media_info(m, fix).unwrap();
    let (name, size, kind) = info(&document("video/mp4", vec![named("a")]), false);
    assert_eq!((name.as_str(), size, kind.as_str()), ("a", 500, "video"));
    let (name, _, _) = info(&document("video/mp4", vec![named("a")]), true);
    assert_eq!(name, "a.mp4");
    let (name, _, kind) = info(&document("audio/ogg", vec![]), false);
    assert_eq!((name.as_str(), kind.as_str()), ("77.ogg", "audio"));
    let (name, _, kind) = info(&document("x/y", vec![]), false);
    assert_eq!((name.as_str(), kind.as_str()), ("file_77", "document"));
    let (_, _, kind) = info(&document("image/png", vec![]), false);
    assert_eq!(kind, "photo");
    let voice = DocumentAttribute::Audio { voice: true };
    let round = DocumentAttribute::Video { round_message: true };
    let (_, _, kind) = info(&document("video/mp4", vec![round, voice]), false);
    assert_eq!(kind, "voice");
    let round = DocumentAttribute::Video { round_message: true };
    let (_, _, kind) = info(&document("video/mp4", vec![DocumentAttribute::Animated, round]), false);
    assert_eq!(kind, "round_video");
    let (_, _, kind) = info(&document("video/mp4", vec![DocumentAttribute::Animated]), false);
    assert_eq!(kind, "gif");
    let plain = DocumentAttribute::Audio { voice: false };
    let (_, _, kind) = info(&document("video/mp4", vec![plain]), false);
    assert_eq!(kind, "video");
}

#[test]
fn a_negative_size_keeps_its_bits() {
    assert_eq!(unsigned_bits(-1), u64::MAX);
    assert_eq!(unsigned_bits(5), 5);
    assert_eq!(unsigned_bits(i64::MIN), 1 << 63);
}

#[test]
fn pages_are_described() {
    let info = extract_webpage_info_raw(&page(Some("T"), Some("S"))).unwrap();
    assert_eq!(info.url, "https://x.y");
    assert_eq!(info.title.as_deref(), Some("T"));
    assert_eq!(info.site_name.as_deref(), Some("S"));
    assert_eq!(info.description, None);
    assert_eq!(info.embed_url.as_deref(), Some("e"));
    assert_eq!(info.embed_type.as_deref(), Some("video"));
    assert_eq!(info.duration_sec, Some(9));
    assert!(extract_webpage_info_raw(&MessageMedia::WebPage(WebPage::Other)).is_none());
    assert!(extract_webpage_info_raw(&MessageMedia::Geo).is_none());
}

#[test]
fn items_carry_captions_and_albums() {
    let item = media_item(&message(3, " hi ", Some(page(None, Some("S")))), false).unwrap();
    assert_eq!(item.file_name, "S");
    assert_eq!(item.file_size, 0);
    assert_eq!(item.media_type, "webpage");
    assert_eq!((item.message_id, item.date), (3, 100));
    assert_eq!(item.caption.as_deref(), Some(" hi "));
    assert_eq!(item.grouped_id, Some(5));
    assert!(item.webpage.is_some());
    let item = media_item(&message(3, " \n", Some(page(None, None))), false).unwrap();
    assert_eq!(item.file_name, "https://x.y");
    assert_eq!(item.caption, None);
    assert!(media_item(&message(3, "x", None), false).is_none());
    assert!(media_item(&message(3, "x", Some(MessageMedia::Geo)), false).is_none());
}

#[test]
fn only_messages_with_media_become_items() {
    let list = vec![
        Message::Empty { id: 1 },
        Message::Message(message(2, "", Some(document("video/mp4", vec![])))),
        Message::Service { id: 3, date: 0, peer: Peer::User(1) },
        Message::Message(message(4, "", None)),
        Message::Message(message(5, "", Some(document("text/plain", vec![])))),
    ];
    let ids: Vec<i32> = media_items(&list, false).iter().map(|i| i.message_id).collect();
    assert_eq!(ids, vec![2, 5]);
}

#[test]
fn filters_have_names() {
    assert!(matches!(media_filter(None), MessagesFilter::Empty));
    assert!(matches!(media_filter(Some("x")), MessagesFilter::Empty));
    assert!(matches!(media_filter(Some("photo")), MessagesFilter::Photos));
    assert!(matches!(media_filter(Some("audio")), MessagesFilter::Music));
    assert!(matches!(media_filter(Some("webpage")), MessagesFilter::Url));
    assert!(matches!(media_filter(Some("chat_photos")), MessagesFilter::ChatPhotos));
}

#[test]
fn media_have_preview_labels() {
    assert_eq!(media_preview_label(&None), "");
    assert_eq!(media_preview_label(&Some(MessageMedia::Photo(None))), "📷 Photo");
    assert_eq!(media_preview_label(&Some(MessageMedia::Venue)), "📍 Venue");
    assert_eq!(media_preview_label(&Some(MessageMedia::Other)), "📦 Media");
}
