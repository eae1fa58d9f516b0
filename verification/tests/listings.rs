use omniget_telegram::platforms::telegram::album::{
    after_album_message, album_history, album_items, expand_album, AlbumStep,
};
use omniget_telegram::platforms::telegram::diag::{diag_history, diag_list_media, diag_search};
use omniget_telegram::platforms::telegram::dialogs::{
    chats_page, list_chats, list_chats_failed, list_chats_page, peer_kind_id, rows_of, ChatListing,
    DialogsData, DialogsReply, ListFailure,
};
use omniget_telegram::platforms::telegram::list_media::{
    after_history, after_resolve, after_second_resolve, any_page_lost, combine_searches,
    combine_searches_given, fetch_media_page, fetch_media_via_history, found_media, give_up_hash,
    list_start, media_metadata, merge_dedup_media, newest_items, read_history, read_search,
    search_kinds, search_media, searches, AfterHistory,
};
use omniget_telegram::platforms::telegram::listing::{
    list_media, ListPhase, ListRequest, ListStep,
};
use omniget_telegram::platforms::telegram::media::{
    media_items, MessagesFilter, TelegramMediaItem,
};
use omniget_telegram::platforms::telegram::members::{
    channel_info, full_channel_info, list_participants, participants_page, ChannelParticipant,
    ChatFull, ParticipantsFilter, ParticipantsReply,
};
use omniget_telegram::platforms::telegram::models::{
    ChannelData, Chat, Dialog, DialogData, Document, DocumentData, GroupData, InputPeer, Message,
    MessageData, MessageMedia, MessagesReply, Peer, User, UserData,
};
use omniget_telegram::platforms::telegram::resolve::{
    refresh_all_dialogs, refresh_channel_hash, resolve_channel_access_hash,
    scan_dialogs_folder_for_channel, DialogScan, ScanStep,
};
use omniget_telegram::platforms::telegram::search::{
    global_hits, search_global, search_global_hits, signed_bits,
};
use omniget_telegram::platforms::telegram::session::Session;

fn signed_in() -> Session {
    let mut s = Session::new();
    s.authenticated = true;
    s
}

fn user(id: i64, first: Option<&str>, last: Option<&str>) -> User {
    User::User(UserData {
        id,
        first_name: first.map(|s| s.to_string()),
        last_name: last.map(|s| s.to_string()),
        username: None,
        phone: None,
        access_hash: Some(id * 100),
        verified: true,
        bot: true,
        online: true,
        photo_id: Some(id + 1000),
    })
}

fn channel(id: i64, hash: Option<i64>, broadcast: bool) -> Chat {
    Chat::Channel(ChannelData {
        id,
        title: format!("channel {}", id),
        username: Some(format!("c{}", id)),
        access_hash: hash,
        broadcast,
        megagroup: !broadcast,
        verified: false,
        photo_id: None,
    })
}

fn group(id: i64) -> Chat {
    Chat::Chat(GroupData { id, title: format!("group {}", id), photo_id: Some(5) })
}

fn file(id: i32, date: i32, peer: Peer, text: &str, grouped: Option<i64>) -> Message {
    Message::Message(MessageData {
        id,
        date,
        peer,
        text: text.to_string(),
        grouped_id: grouped,
        media: Some(MessageMedia::Document(Some(Document::Document(DocumentData {
            id: 1,
            access_hash: 2,
            file_reference: vec![],
            dc_id: 3,
            size: 4,
            mime_type: "video/mp4".to_string(),
            attributes: vec![],
            thumbs: None,
        })))),
    })
}

fn text(id: i32, date: i32, peer: Peer, text: &str) -> Message {
    Message::Message(MessageData {
        id,
        date,
        peer,
        text: text.to_string(),
        grouped_id: None,
        media: None,
    })
}

fn item(id: i32, date: i64) -> TelegramMediaItem {
    TelegramMediaItem {
        message_id: id,
        file_name: format!("f{}", id),
        file_size: id as u64,
        media_type: "video".to_string(),
        date,
        webpage: None,
        caption: None,
        grouped_id: None,
    }
}

fn ids(items: &Vec<TelegramMediaItem>) -> Vec<i32> {
    items.iter().map(|i| i.message_id).collect()
}

fn dialog(peer: Peer, top: i32, mute: Option<i32>) -> Dialog {
    Dialog::Dialog(DialogData {
        peer,
        top_message: top,
        unread_count: 2,
        pinned: true,
        mute_until: mute,
    })
}

// ------------------------------------------------------------ members

#[test]
fn participants_are_asked_for_by_filter() {
    let mut s = signed_in();
    s.peer_hashes.put(9, 3);
    let r = list_participants(&s, 9, "banned", 1, 2, Some("q".to_string())).ok().unwrap();
    assert_eq!((r.channel.channel_id, r.channel.access_hash), (9, 3));
    assert_eq!((r.offset, r.limit), (1, 2));
    assert!(matches!(r.filter, ParticipantsFilter::Kicked { ref q } if q == "q"));
    let r = list_participants(&s, 9, "restricted", 0, 0, None).ok().unwrap();
    assert!(matches!(r.filter, ParticipantsFilter::Banned { ref q } if q.is_empty()));
    let r = list_participants(&s, 9, "search", 0, 0, Some("x".to_string())).ok().unwrap();
    assert!(matches!(r.filter, ParticipantsFilter::Search { ref q } if q == "x"));
    let r = list_participants(&s, 9, "admins", 0, 0, None).ok().unwrap();
    assert!(matches!(r.filter, ParticipantsFilter::Admins));
    let r = list_participants(&s, 9, "bots", 0, 0, None).ok().unwrap();
    assert!(matches!(r.filter, ParticipantsFilter::Bots));
    let r = list_participants(&s, 9, "anything", 0, 0, None).ok().unwrap();
    assert!(matches!(r.filter, ParticipantsFilter::Recent));
    assert!(list_participants(&Session::new(), 9, "x", 0, 0, None).is_err());
}

#[test]
fn participants_have_roles_and_names() {
    let reply = ParticipantsReply::Participants {
        count: 40,
        participants: vec![
            ChannelParticipant::Creator { user_id: 1 },
            ChannelParticipant::Admin { user_id: 2, date: 20 },
            ChannelParticipant::Member { user_id: 3, date: 30 },
            ChannelParticipant::Banned { peer: Peer::User(1), date: 40 },
            ChannelParticipant::Left { peer: Peer::Channel(1) },
            ChannelParticipant::Oneself { user_id: 2, date: 50 },
        ],
        users: vec![user(1, Some("A"), None), User::Empty, user(2, None, Some("B"))],
    };
    let page = participants_page(&reply);
    assert_eq!(page.count, 40);
    let roles: Vec<&str> = page.users.iter().map(|u| u.role.as_str()).collect();
    assert_eq!(roles, vec!["creator", "admin", "member", "banned", "left", "self"]);
    let joined: Vec<Option<i32>> = page.users.iter().map(|u| u.joined_at).collect();
    assert_eq!(joined, vec![None, Some(20), Some(30), Some(40), None, Some(50)]);
    assert_eq!(page.users[0].first_name, "A");
    assert_eq!(page.users[1].last_name, "B");
    assert_eq!(page.users[2].first_name, "");
    assert!(page.users[0].is_bot && !page.users[2].is_bot);
    assert_eq!(page.users[4].user_id, 0);
    let page = participants_page(&ParticipantsReply::NotModified);
    assert_eq!((page.count, page.users.len()), (0, 0));
}

#[test]
fn full_info_is_of_channels_and_groups() {
    let s = signed_in();
    assert!(full_channel_info(&s, 1, "channel").is_ok());
    match full_channel_info(&Session::new(), 1, "private") {
        Err(e) => {
            assert_eq!(e.message(), "full_channel_info: only channel/group supported, got 'private'")
        }
        Ok(_) => panic!("accepted"),
    }
    let full = ChatFull::Channel { about: "a".to_string(), participants_count: Some(7) };
    let info = channel_info(5, &full, &vec![group(4), channel(5, None, true)]);
    assert_eq!((info.title.as_str(), info.about.as_str()), ("channel 5", "a"));
    assert_eq!(info.username.as_deref(), Some("c5"));
    assert_eq!(info.participants_count, Some(7));
    let full = ChatFull::Group { about: "b".to_string() };
    let info = channel_info(5, &full, &vec![channel(5, None, true)]);
    assert_eq!((info.title.as_str(), info.about.as_str()), ("", "b"));
    assert_eq!(info.participants_count, None);
}

// ------------------------------------------------------------ search

#[test]
fn searches_keep_the_bits_of_their_limit() {
    let s = signed_in();
    assert_eq!(search_global(&s, "q", 7).ok().unwrap().limit, 7);
    assert_eq!(search_global_hits(&s, "q", u32::MAX).ok().unwrap().limit, -1);
    assert_eq!(search_global(&s, "q", 7).ok().unwrap().q, "q");
    assert!(search_global(&Session::new(), "q", 7).is_err());
    assert_eq!(signed_bits(0x8000_0000), i32::MIN);
}

#[test]
fn hits_are_the_items_of_the_plain_search() {
    let messages = vec![
        file(1, 10, Peer::Channel(5), "caption", Some(3)),
        text(2, 20, Peer::User(3), "no media"),
        file(3, 30, Peer::User(1), "", None),
    ];
    for fix in [false, true] {
        let items = media_items(&messages, fix);
        let hits = global_hits(&messages, &vec![], &vec![], fix);
        assert_eq!(items.len(), 2);
        assert_eq!(hits.len(), 2);
        for (h, i) in hits.iter().zip(items.iter()) {
            assert_eq!((h.item.message_id, h.item.date), (i.message_id, i.date));
            assert_eq!((&h.item.file_name, h.item.file_size), (&i.file_name, i.file_size));
            assert_eq!((&h.item.caption, &h.item.media_type), (&i.caption, &i.media_type));
            assert_eq!(h.item.grouped_id, i.grouped_id);
        }
    }
}

#[test]
fn hits_say_where_they_were_found() {
    let messages = vec![
        file(1, 10, Peer::Channel(5), "", None),
        file(2, 20, Peer::Channel(6), "", None),
        file(3, 30, Peer::Channel(7), "", None),
        file(4, 40, Peer::Chat(8), "", None),
        file(5, 50, Peer::User(1), "", None),
        file(6, 60, Peer::User(2), "", None),
        file(7, 70, Peer::User(3), "", None),
        text(8, 80, Peer::User(3), "no media"),
    ];
    let chats = vec![channel(5, None, true), channel(6, None, false), group(9)];
    let users = vec![user(1, Some(" A"), Some("B ")), user(2, None, None)];
    let hits = global_hits(&messages, &chats, &users, false);
    let seen: Vec<(i64, &str, &str)> = hits
        .iter()
        .map(|h| (h.chat_id, h.chat_type.as_str(), h.chat_title.as_str()))
        .collect();
    assert_eq!(
        seen,
        vec![
            (5, "channel", "channel 5"),
            (6, "group", "channel 6"),
            (7, "channel", "Canal 7"),
            (8, "group", "Grupo 8"),
            (1, "private", "A B"),
            (2, "private", "Usuário 2"),
            (3, "private", "Usuário 3"),
        ]
    );
    assert_eq!(hits[0].item.message_id, 1);
}

// ------------------------------------------------------------ dialogs

#[test]
fn a_page_of_chats_is_asked_for_within_limits() {
    let s = signed_in();
    let r = list_chats_page(&s, 1, 2, &None, 0).ok().unwrap();
    assert_eq!((r.offset_date, r.offset_id, r.limit), (1, 2, 1));
    assert!(matches!(r.offset_peer, InputPeer::Empty));
    assert_eq!(r.folder_id, None);
    let at = Some((5, "private".to_string(), 6));
    let r = list_chats_page(&s, 1, 2, &at, 500).ok().unwrap();
    assert_eq!(r.limit, 100);
    assert!(matches!(r.offset_peer, InputPeer::User { user_id: 5, access_hash: 6 }));
}

fn some_dialogs() -> DialogsData {
    DialogsData {
        dialogs: vec![
            dialog(Peer::User(1), 11, Some(100)),
            Dialog::Folder,
            dialog(Peer::Channel(5), 12, None),
            dialog(Peer::User(9), 13, None),
            dialog(Peer::Chat(8), 14, Some(101)),
        ],
        messages: vec![
            text(11, 110, Peer::User(1), &"x".repeat(90)),
            file(12, 120, Peer::Channel(5), " ", None),
            Message::Service { id: 14, date: 140, peer: Peer::Chat(8) },
        ],
        chats: vec![channel(5, Some(55), true), group(8)],
        users: vec![user(1, Some("A"), Some(""))],
    }
}

#[test]
fn dialogs_become_rows() {
    let page = rows_of(&some_dialogs(), 3, 100);
    let rows: Vec<(i64, &str, &str)> = page
        .chats
        .iter()
        .map(|c| (c.id, c.title.as_str(), c.chat_type.as_str()))
        .collect();
    assert_eq!(
        rows,
        vec![(1, "A", "private"), (5, "channel 5", "channel"), (8, "group 8", "group")]
    );
    assert_eq!(page.chats[0].last_message.as_ref().unwrap().len(), 80);
    assert_eq!(page.chats[1].last_message.as_deref(), Some("📎 File"));
    assert_eq!(page.chats[2].last_message, None);
    assert_eq!(page.chats[2].last_message_date, Some(140));
    let muted: Vec<bool> = page.chats.iter().map(|c| c.is_muted).collect();
    assert_eq!(muted, vec![false, false, true]);
    assert!(page.chats[0].is_online && page.chats[0].is_pinned && page.chats[0].is_verified);
    assert_eq!(page.chats[0].unread_count, 2);
    let next = page.next_offset.unwrap();
    assert_eq!((next.date, next.id, next.peer_id), (140, 14, 8));
    assert_eq!(next.peer_type, "group");
    assert!(rows_of(&some_dialogs(), 4, 100).next_offset.is_none());
}

#[test]
fn what_a_page_shows_is_remembered() {
    let mut s = signed_in();
    let page = chats_page(&mut s, &DialogsReply::Slice(some_dialogs()), 40, 0);
    assert_eq!(page.chats.len(), 3);
    assert_eq!(s.peer_hashes.get(1), Some(100));
    assert_eq!(s.peer_hashes.get(5), Some(55));
    assert_eq!(s.peer_hashes.get(8), Some(0));
    assert_eq!(s.peer_hashes.get(9), None);
    assert_eq!(s.peer_photo_ids.get(1), Some(1001));
    assert_eq!(s.peer_photo_ids.get(8), Some(5));
    let page = chats_page(&mut s, &DialogsReply::NotModified, 40, 0);
    assert!(page.chats.is_empty() && page.next_offset.is_none());
    assert_eq!(peer_kind_id(&Peer::Chat(3)), ("group".to_string(), 3));
}

#[test]
fn all_chats_are_listed_up_to_a_limit() {
    let mut s = signed_in();
    s.peer_hashes.put(77, 7);
    assert!(list_chats(&Session::new()).is_err());
    let mut l = list_chats(&signed_in()).ok().unwrap();
    l.push(&Peer::User(1), Some("A"), 5);
    l.push(&Peer::Channel(2), None, 6);
    assert!(!l.is_full());
    let chats = l.finish(&mut s);
    assert_eq!(chats[0].title, "A");
    assert_eq!((chats[1].title.as_str(), chats[1].chat_type.as_str()), ("Unknown", "channel"));
    assert_eq!(s.peer_hashes.get(2), Some(6));
    assert_eq!(s.peer_hashes.get(77), None);
    let mut l = ChatListing::new();
    for i in 0..500 {
        assert!(!l.is_full());
        l.push(&Peer::Chat(i), Some("g"), 0);
    }
    assert!(l.is_full());
}

#[test]
fn a_listing_that_is_held_up_stops_waits_or_fails() {
    assert!(matches!(list_chats_failed("FLOOD_WAIT_60", 1), ListFailure::Stop));
    assert!(matches!(list_chats_failed("FLOOD_WAIT_60", 0), ListFailure::Sleep(61)));
    match list_chats_failed("FLOOD_WAIT_61", 1) {
        ListFailure::Fail(t) => {
            assert_eq!(t, "Telegram pediu pra esperar 61s antes de listar chats de novo")
        }
        _ => panic!("not a failure"),
    }
    match list_chats_failed("gone", 1) {
        ListFailure::Fail(t) => assert_eq!(t, "gone"),
        _ => panic!("not a failure"),
    }
}

// ------------------------------------------------------------ resolving

#[test]
fn a_channel_is_looked_for_page_by_page() {
    let scan = DialogScan::start(None);
    let r = scan.request();
    assert_eq!((r.offset_date, r.offset_id, r.limit), (0, 0, 100));
    let slice = DialogsReply::Slice(DialogsData {
        dialogs: vec![dialog(Peer::Channel(5), 12, None)],
        messages: vec![text(12, 120, Peer::Channel(5), "x")],
        chats: vec![channel(5, Some(55), true)],
        users: vec![],
    });
    match scan_dialogs_folder_for_channel(&scan, 6, &slice) {
        ScanStep::Next(next) => {
            assert_eq!((next.page, next.offset_id, next.offset_date), (1, 12, 120));
            assert!(matches!(
                next.offset_peer,
                InputPeer::Channel { channel_id: 5, access_hash: 55 }
            ));
        }
        _ => panic!("no next page"),
    }
    assert!(matches!(
        scan_dialogs_folder_for_channel(&scan, 5, &slice),
        ScanStep::Found(55)
    ));
    assert!(matches!(
        scan_dialogs_folder_for_channel(&scan, 5, &DialogsReply::NotModified),
        ScanStep::NotFound
    ));
}

#[test]
fn the_archive_is_looked_through_last() {
    let scan = DialogScan::start(None);
    match resolve_channel_access_hash(&scan, 6, &DialogsReply::NotModified) {
        ScanStep::Next(next) => assert_eq!((next.folder_id, next.page), (Some(1), 0)),
        _ => panic!("the archive was left out"),
    }
    let archive = DialogScan::start(Some(1));
    assert!(matches!(
        resolve_channel_access_hash(&archive, 6, &DialogsReply::NotModified),
        ScanStep::NotFound
    ));
}

#[test]
fn refreshed_hashes_are_counted_where_they_change() {
    let mut s = signed_in();
    s.peer_hashes.put(1, 10);
    let chats = vec![
        channel(1, Some(10), true),
        channel(2, Some(20), true),
        channel(3, None, true),
        group(4),
    ];
    assert_eq!(refresh_all_dialogs(&mut s, &chats), 1);
    assert_eq!(s.peer_hashes.get(2), Some(20));
    assert_eq!(refresh_all_dialogs(&mut s, &chats), 0);
    refresh_channel_hash(&mut s, 9, Some(5));
    refresh_channel_hash(&mut s, 8, None);
    assert_eq!((s.peer_hashes.get(9), s.peer_hashes.get(8)), (Some(5), None));
}

// ------------------------------------------------------------ media

#[test]
fn pages_of_media_are_asked_for() {
    let r = fetch_media_page(InputPeer::Empty, Some("photo"), "q", 5, 7);
    assert_eq!((r.q.as_str(), r.offset_id, r.limit), ("q", 5, 7));
    assert!(matches!(r.filter, MessagesFilter::Photos));
    let r = fetch_media_via_history(InputPeer::Empty, 5, u32::MAX);
    assert_eq!((r.offset_id, r.limit), (5, -1));
}

#[test]
fn refused_pages_are_empty_or_fail() {
    let e = read_search(Err("CHAT_ADMIN_REQUIRED x".to_string()), false);
    assert!(matches!(e, Ok(ref l) if l.is_empty()));
    match read_search(Err("boom".to_string()), false) {
        Err(t) => assert_eq!(t, "messages.Search failed: boom"),
        Ok(_) => panic!("accepted"),
    }
    match read_history(Err("boom".to_string()), false) {
        Err(t) => assert_eq!(t, "messages.GetHistory failed: boom"),
        Ok(_) => panic!("accepted"),
    }
    let reply = MessagesReply::Slice(vec![file(4, 1, Peer::User(1), "", None)]);
    assert_eq!(ids(&read_history(Ok(reply), false).ok().unwrap()), vec![4]);
}

#[test]
fn items_are_merged_without_repeats_newest_first() {
    let merged = merge_dedup_media(
        vec![
            Ok(vec![item(1, 10), item(2, 30)]),
            Err("x".to_string()),
            Ok(vec![item(2, 99), item(3, 20), item(4, 30)]),
            Ok(vec![]),
        ],
        3,
    );
    assert_eq!(ids(&merged), vec![2, 4, 3]);
    assert_eq!(merged[0].date, 30);
    assert_eq!(ids(&newest_items(vec![item(1, 1), item(2, 2), item(3, 3)], 2)), vec![3, 2]);
    assert_eq!(search_kinds(), vec!["photo", "video", "document", "audio"]);
}

#[test]
fn an_empty_history_is_searched() {
    assert!(matches!(after_history(Ok(vec![]), 5), AfterHistory::SearchKinds));
    match after_history(Ok(vec![item(1, 1), item(2, 2)]), 1) {
        AfterHistory::Done(l) => assert_eq!(ids(&l), vec![2]),
        _ => panic!("not done"),
    }
    match after_history(Err("e".to_string()), 1) {
        AfterHistory::Fail(t) => assert_eq!(t, "e"),
        _ => panic!("not failed"),
    }
}

#[test]
fn a_lost_channel_fails_the_searches() {
    let pages = || vec![Ok(vec![item(1, 1)]), Err("a: channel_private".to_string())];
    assert!(any_page_lost(&pages()));
    match combine_searches(pages(), 5) {
        Err(t) => assert_eq!(t, "CHANNEL_INVALID propagated: a: channel_private"),
        Ok(_) => panic!("accepted"),
    }
    assert_eq!(ids(&combine_searches_given(pages(), false, 5).ok().unwrap()), vec![1]);
    let fine = vec![Ok(vec![item(1, 1)]), Err("timeout".to_string())];
    assert!(!any_page_lost(&fine));
    assert_eq!(ids(&combine_searches(fine, 5).ok().unwrap()), vec![1]);
}

#[test]
fn a_hash_that_is_missing_is_resolved_first() {
    let mut s = signed_in();
    let start = list_start(&s, 5, "channel").ok().unwrap();
    assert!(start.resolve_first && start.access_hash == 0);
    assert!(!list_start(&s, 5, "group").ok().unwrap().resolve_first);
    assert_eq!(after_resolve(&mut s, 5, 0, &Ok(Some(8))), 8);
    assert_eq!(s.peer_hashes.get(5), Some(8));
    assert_eq!(after_resolve(&mut s, 6, 0, &Ok(None)), 0);
    assert_eq!(after_resolve(&mut s, 6, 0, &Err("x".to_string())), 0);
    assert_eq!(s.peer_hashes.get(6), None);
    assert!(!list_start(&s, 5, "channel").ok().unwrap().resolve_first);
}

#[test]
fn a_hash_that_is_refused_is_given_up() {
    let mut s = signed_in();
    s.peer_hashes.put(5, 8);
    assert!(!give_up_hash(&mut s, 5, "channel", false));
    assert!(!give_up_hash(&mut s, 5, "group", true));
    assert_eq!(s.peer_hashes.get(5), Some(8));
    assert!(give_up_hash(&mut s, 5, "channel", true));
    assert_eq!(s.peer_hashes.get(5), None);
    assert_eq!(after_second_resolve(&mut s, 5, 8, "e", &Ok(Some(9))), Ok(9));
    assert_eq!(s.peer_hashes.get(5), Some(9));
    let same = after_second_resolve(&mut s, 5, 9, "e", &Ok(Some(9))).unwrap_err();
    assert!(same.starts_with("Channel inacessível mesmo após re-resolver access_hash (9)."));
    let none = after_second_resolve(&mut s, 5, 9, "e", &Ok(None)).unwrap_err();
    assert!(none.starts_with("Channel inacessível: não consegui resolver access_hash"));
    assert_eq!(
        after_second_resolve(&mut s, 5, 9, "e", &Err("x".to_string())),
        Err("Falha ao re-resolver access_hash do channel: x. Erro original: e".to_string())
    );
}

fn request(chat_type: &str, media_type: Option<&str>) -> ListRequest {
    ListRequest {
        chat_id: 5,
        chat_type: chat_type.to_string(),
        media_type: media_type.map(|k| k.to_string()),
        offset: 7,
        limit: 2,
    }
}

#[test]
fn a_list_reads_the_history_then_searches() {
    let mut s = signed_in();
    s.peer_hashes.put(5, 8);
    let (mut l, step) = list_media(&s, request("channel", None)).ok().unwrap();
    match step {
        ListStep::History(h) => {
            assert_eq!(h.peer, InputPeer::Channel { channel_id: 5, access_hash: 8 });
            assert_eq!((h.offset_id, h.limit), (7, 2));
        }
        _ => panic!("no history"),
    }
    match l.history_read(&mut s, Ok(vec![])) {
        ListStep::Search(list) => {
            let filters: Vec<MessagesFilter> = list.iter().map(|q| q.filter).collect();
            assert_eq!(filters[0], MessagesFilter::Photos);
            assert_eq!(filters[3], MessagesFilter::Music);
            assert_eq!(list.len(), 4);
        }
        _ => panic!("no searches"),
    }
    let pages = vec![Ok(vec![item(1, 1), item(2, 3)]), Ok(vec![item(3, 2)]), Ok(vec![]), Ok(vec![])];
    match l.searched(&mut s, pages) {
        ListStep::Done(Ok(items)) => assert_eq!(ids(&items), vec![2, 3]),
        _ => panic!("not done"),
    }
    assert!(matches!(l.phase, ListPhase::Ended));
    let (mut l, _) = list_media(&s, request("group", None)).ok().unwrap();
    match l.history_read(&mut s, Ok(vec![item(1, 1), item(2, 3), item(3, 2)])) {
        ListStep::Done(Ok(items)) => assert_eq!(ids(&items), vec![2, 3]),
        _ => panic!("not done"),
    }
    assert!(list_media(&Session::new(), request("group", None)).is_err());
}

#[test]
fn a_lost_channel_is_tried_twice_at_most() {
    let mut s = signed_in();
    let (mut l, step) = list_media(&s, request("channel", Some("video"))).ok().unwrap();
    assert!(matches!(step, ListStep::Resolve));
    match l.resolved(&mut s, &Ok(Some(8))) {
        ListStep::Search(list) => {
            assert_eq!(list.len(), 1);
            assert_eq!(list[0].peer, InputPeer::Channel { channel_id: 5, access_hash: 8 });
            assert_eq!(list[0].filter, MessagesFilter::Video);
        }
        _ => panic!("no search"),
    }
    assert_eq!(s.peer_hashes.get(5), Some(8));
    let lost = || vec![Err("x: CHANNEL_INVALID".to_string())];
    assert!(matches!(l.searched(&mut s, lost()), ListStep::Resolve));
    assert_eq!(s.peer_hashes.get(5), None);
    match l.resolved(&mut s, &Ok(Some(9))) {
        ListStep::Search(list) => {
            assert_eq!(list[0].peer, InputPeer::Channel { channel_id: 5, access_hash: 9 });
        }
        _ => panic!("no search"),
    }
    match l.searched(&mut s, lost()) {
        ListStep::Done(Err(t)) => assert_eq!(t, "x: CHANNEL_INVALID"),
        _ => panic!("tried once more"),
    }
    assert_eq!(s.peer_hashes.get(5), Some(9));
}

#[test]
fn the_same_hash_is_not_tried_again() {
    let mut s = signed_in();
    s.peer_hashes.put(5, 8);
    let (mut l, _) = list_media(&s, request("channel", None)).ok().unwrap();
    let step = l.history_read(&mut s, Err("channel_private".to_string()));
    assert!(matches!(step, ListStep::Resolve));
    match l.resolved(&mut s, &Ok(Some(8))) {
        ListStep::Done(Err(t)) => {
            assert!(t.starts_with("Channel inacessível mesmo após re-resolver access_hash (8)."));
        }
        _ => panic!("tried again"),
    }
    let (mut l, _) = list_media(&s, request("group", None)).ok().unwrap();
    match l.failed_given(&mut s, "e".to_string(), true) {
        ListStep::Done(Err(t)) => assert_eq!(t, "e"),
        _ => panic!("tried again"),
    }
}

#[test]
fn a_search_is_for_one_kind_or_for_all() {
    let peer = InputPeer::Chat { chat_id: 3 };
    let one = searches(peer, Some("document"), "q", 1, 9);
    assert_eq!((one.len(), one[0].filter), (1, MessagesFilter::Document));
    assert_eq!((one[0].q.as_str(), one[0].offset_id, one[0].limit), ("q", 1, 9));
    assert_eq!(searches(peer, None, "q", 1, 9).len(), 4);
    let pages = || vec![Ok(vec![item(1, 1), item(2, 2)])];
    assert_eq!(ids(&found_media(true, pages(), 1).ok().unwrap()), vec![1, 2]);
    assert_eq!(ids(&found_media(false, pages(), 1).ok().unwrap()), vec![2]);
}

#[test]
fn metadata_are_kept_of_items() {
    let m = media_metadata(&vec![item(3, 1)]);
    assert_eq!((m[0].message_id, m[0].size), (3, 3));
    assert_eq!((m[0].filename.as_str(), m[0].mime.as_str()), ("f3", "video"));
    assert!(search_media(&Session::new(), 1, "channel").is_err());
    assert!(matches!(
        search_media(&signed_in(), 1, "private"),
        Ok(InputPeer::User { user_id: 1, access_hash: 0 })
    ));
}

#[test]
fn listings_are_diagnosed() {
    assert_eq!(diag_history(InputPeer::Empty).limit, 100);
    let s = diag_search(InputPeer::Empty, "audio");
    assert_eq!((s.limit, s.q.as_str()), (50, ""));
    assert!(matches!(s.filter, MessagesFilter::Music));
    let d = diag_list_media(
        5,
        "channel",
        0,
        &Some(Ok(Some(8))),
        Ok(MessagesReply::Messages(vec![
            file(1, 1, Peer::User(1), "", None),
            text(2, 2, Peer::User(1), "x"),
        ])),
        &vec![Ok(3), Err("no".to_string()), Ok(0), Ok(1)],
        17,
    );
    assert_eq!((d.access_hash_cached, d.access_hash_resolved), (0, 8));
    assert!(d.auto_resolve_attempted);
    assert_eq!(d.auto_resolve_outcome, "resolved=8");
    assert_eq!((d.get_history_count, d.get_history_with_media), (2, 1));
    assert_eq!((d.search_photo_count, d.search_video_count), (3, 0));
    assert_eq!((d.search_document_count, d.search_audio_count), (0, 1));
    assert_eq!(d.search_errors, vec!["video: no".to_string()]);
    assert_eq!((d.final_count, d.elapsed_ms), (4, 17));
    let none = || vec![Ok(0), Ok(0), Ok(0), Ok(0)];
    let d = diag_list_media(5, "group", 3, &None, Err("bad".to_string()), &none(), 0);
    assert_eq!(d.auto_resolve_outcome, "not_attempted");
    assert_eq!(d.get_history_error.as_deref(), Some("bad"));
    assert_eq!(d.access_hash_resolved, 3);
    let d = diag_list_media(5, "channel", 0, &Some(Ok(None)), Err("bad".to_string()), &none(), 0);
    assert_eq!(d.auto_resolve_outcome, "not_found_in_dialogs");
    let d = diag_list_media(
        5,
        "channel",
        0,
        &Some(Err("down".to_string())),
        Err("bad".to_string()),
        &none(),
        0,
    );
    assert_eq!(d.auto_resolve_outcome, "error: down");
}

// ------------------------------------------------------------ albums

#[test]
fn an_album_is_read_around_a_message() {
    let mut s = signed_in();
    s.peer_hashes.put(5, 8);
    let start = expand_album(&s, 5, "group", 100).ok().unwrap();
    let c = start.channel.as_ref().unwrap();
    assert_eq!((c.channel_id, c.access_hash, start.message_id), (5, 8, 100));
    assert!(expand_album(&s, 6, "group", 100).ok().unwrap().channel.is_none());
    let reply = MessagesReply::ChannelMessages(vec![file(100, 1, Peer::Channel(5), "", Some(44))]);
    match after_album_message(&start, &reply, false) {
        AlbumStep::Siblings { grouped_id } => {
            let history = album_history(&start);
            assert_eq!(grouped_id, 44);
            assert_eq!((history.offset_id, history.limit), (111, 22));
        }
        _ => panic!("no siblings"),
    }
    let alone = MessagesReply::Messages(vec![file(100, 1, Peer::Channel(5), "", None)]);
    match after_album_message(&start, &alone, false) {
        AlbumStep::Done(l) => assert_eq!(ids(&l), vec![100]),
        _ => panic!("not done"),
    }
    match after_album_message(&start, &MessagesReply::NotModified, false) {
        AlbumStep::Done(l) => assert!(l.is_empty()),
        _ => panic!("not done"),
    }
}

#[test]
fn an_album_is_ordered_by_its_messages() {
    let messages = vec![
        file(103, 1, Peer::Channel(5), "", Some(44)),
        file(102, 1, Peer::Channel(5), "", Some(45)),
        file(101, 1, Peer::Channel(5), "", Some(44)),
        text(100, 1, Peer::Channel(5), "x"),
    ];
    assert_eq!(ids(&album_items(&messages, 44, false)), vec![101, 103]);
}
