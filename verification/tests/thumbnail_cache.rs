use omniget_telegram::platforms::telegram::models::{
    ChannelData, Chat, Document, DocumentData, FileLocation, GroupData, InputPeer, MessageMedia,
    Photo, PhotoData, PhotoSize, User, UserData,
};
use omniget_telegram::platforms::telegram::parallel_download::ChunkStep;
use omniget_telegram::platforms::telegram::session::Session;
use omniget_telegram::platforms::telegram::thumbnail_cache::{
    chat_photo_id, extract_thumbnail_location, fetch_chat_photo_id, get_chat_photo, get_thumbnail,
    photo_location, user_photo_id, ChatPhotoStep, MemoryDownload, PhotoRequest, ThumbnailCache,
    ThumbnailStep,
};

const SEC: u64 = 1_000_000_000;

fn user(id: i64, photo_id: Option<i64>) -> User {
    User::User(UserData {
        id,
        first_name: None,
        last_name: None,
        username: None,
        phone: None,
        access_hash: None,
        verified: false,
        bot: false,
        online: false,
        photo_id,
    })
}

fn channel(id: i64, photo_id: Option<i64>) -> Chat {
    Chat::Channel(ChannelData {
        id,
        title: String::new(),
        username: None,
        access_hash: None,
        broadcast: true,
        megagroup: false,
        verified: false,
        photo_id,
    })
}

#[test]
fn a_picture_is_found_for_two_minutes() {
    let mut c = ThumbnailCache::new();
    assert_eq!(c.get(&(1, 2), 0), None);
    c.insert((1, 2), vec![7, 8], 10 * SEC);
    assert_eq!(c.get(&(1, 2), 10 * SEC), Some(vec![7, 8]));
    assert_eq!(c.get(&(1, 3), 10 * SEC), None);
    assert_eq!(c.get(&(1, 2), 131 * SEC - 1), Some(vec![7, 8]));
    assert_eq!(c.get(&(1, 2), 131 * SEC), None);
    assert_eq!(c.get(&(1, 2), 10 * SEC), None);
}

#[test]
fn a_newer_picture_takes_the_place_of_an_older() {
    let mut c = ThumbnailCache::new();
    c.insert((1, 2), vec![1], 0);
    c.insert((1, 2), vec![2, 3], SEC);
    assert_eq!(c.get(&(1, 2), SEC), Some(vec![2, 3]));
    c.clear();
    assert_eq!(c.get(&(1, 2), SEC), None);
}

#[test]
fn the_oldest_pictures_make_room() {
    let mut c = ThumbnailCache::new();
    let mb = 1024 * 1024;
    for i in 0..30 {
        c.insert((1, i), vec![0; mb], i as u64);
    }
    assert!(c.get(&(1, 0), 30).is_some());
    c.insert((1, 30), vec![0; 1], 30);
    for i in 0..8 {
        assert!(c.get(&(1, i), 31).is_none());
    }
    for i in 8..31 {
        assert!(c.get(&(1, i), 31).is_some());
    }
}

#[test]
fn the_smallest_size_is_the_thumbnail() {
    let sizes = || {
        vec![
            PhotoSize::Size { kind: "m".to_string(), size: 50 },
            PhotoSize::Other,
            PhotoSize::Size { kind: "s".to_string(), size: 20 },
            PhotoSize::Size { kind: "x".to_string(), size: 20 },
        ]
    };
    let photo = MessageMedia::Photo(Some(Photo::Photo(PhotoData {
        id: 1,
        access_hash: 2,
        file_reference: vec![3],
        dc_id: 4,
        sizes: sizes(),
    })));
    match extract_thumbnail_location(&photo) {
        Some((FileLocation::Photo { id, thumb_size, .. }, size)) => {
            assert_eq!((id, thumb_size.as_str(), size), (1, "s", 20))
        }
        _ => panic!("no location"),
    }
    let document = |thumbs: Option<Vec<PhotoSize>>| {
        MessageMedia::Document(Some(Document::Document(DocumentData {
            id: 5,
            access_hash: 6,
            file_reference: vec![],
            dc_id: 7,
            size: 8,
            mime_type: String::new(),
            attributes: vec![],
            thumbs,
        })))
    };
    match extract_thumbnail_location(&document(Some(sizes()))) {
        Some((FileLocation::Document { id, thumb_size, .. }, size)) => {
            assert_eq!((id, thumb_size.as_str(), size), (5, "s", 20))
        }
        _ => panic!("no location"),
    }
    assert!(extract_thumbnail_location(&document(None)).is_none());
    assert!(extract_thumbnail_location(&document(Some(vec![PhotoSize::Other]))).is_none());
    assert!(extract_thumbnail_location(&MessageMedia::Geo).is_none());
}

#[test]
fn a_picture_is_put_together_from_chunks() {
    let mut d = MemoryDownload::new();
    assert!(matches!(d.take_chunk(vec![1; 524_288]), ChunkStep::WriteMore));
    assert_eq!(d.offset(), 524_288);
    assert!(matches!(d.take_chunk(vec![2; 3]), ChunkStep::WriteLast));
    assert_eq!(d.offset(), 524_291);
    assert_eq!(d.data[524_288], 2);
    assert!(matches!(d.take_chunk(vec![]), ChunkStep::End));
}

#[test]
fn a_cached_picture_needs_nobody_signed_in() {
    let mut c = ThumbnailCache::new();
    let s = Session::new();
    assert!(get_thumbnail(&mut c, &s, 1, "channel", 2, 0).is_err());
    c.insert((1, 2), vec![5], 0);
    assert!(matches!(
        get_thumbnail(&mut c, &s, 1, "channel", 2, 0),
        Ok(ThumbnailStep::Cached(d)) if d == vec![5]
    ));
    let mut s = Session::new();
    s.authenticated = true;
    match get_thumbnail(&mut c, &s, 1, "channel", 3, 0) {
        Ok(ThumbnailStep::Fetch(t)) => assert!(t.is_channel && t.message_id == 3),
        _ => panic!("not fetched"),
    }
}

#[test]
fn photos_of_chats_are_asked_for_by_type() {
    assert!(matches!(
        fetch_chat_photo_id(1, "private", 2),
        PhotoRequest::User { user_id: 1, access_hash: 2 }
    ));
    assert!(matches!(fetch_chat_photo_id(1, "group", 0), PhotoRequest::Chat { chat_id: 1 }));
    assert!(matches!(
        fetch_chat_photo_id(1, "group", 2),
        PhotoRequest::Channel(c) if c.access_hash == 2
    ));
    let mut c = ThumbnailCache::new();
    let mut s = Session::new();
    s.authenticated = true;
    assert!(matches!(
        get_chat_photo(&mut c, &s, 4, "private", 0),
        Ok(ChatPhotoStep::Ask {
            peer: InputPeer::User { user_id: 4, access_hash: 0 },
            request: PhotoRequest::User { .. },
        })
    ));
    c.insert((4, 0), vec![1], 0);
    assert!(matches!(get_chat_photo(&mut c, &s, 4, "private", 0), Ok(ChatPhotoStep::Cached(_))));
    assert!(matches!(
        photo_location(InputPeer::Empty, 8),
        FileLocation::PeerPhoto { photo_id: 8, .. }
    ));
}

#[test]
fn photos_that_are_missing_are_reported() {
    assert_eq!(user_photo_id(&vec![User::Empty, user(1, None), user(1, Some(5))], 1), Ok(5));
    assert_eq!(user_photo_id(&vec![user(2, Some(5))], 1), Err("User has no photo".to_string()));
    let request = fetch_chat_photo_id(1, "channel", 9);
    assert_eq!(chat_photo_id(&vec![channel(2, Some(3)), channel(1, Some(4))], &request), Ok(4));
    assert_eq!(
        chat_photo_id(&vec![channel(1, None)], &request),
        Err("Channel has no photo".to_string())
    );
    let request = fetch_chat_photo_id(1, "group", 0);
    let group = Chat::Chat(GroupData { id: 1, title: String::new(), photo_id: Some(6) });
    assert_eq!(chat_photo_id(&vec![channel(1, Some(4)), group], &request), Ok(6));
    assert_eq!(
        chat_photo_id(&vec![channel(1, Some(4))], &request),
        Err("Chat has no photo".to_string())
    );
}
