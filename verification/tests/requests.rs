use omniget_telegram::platforms::telegram::models::{
    Chat, ChannelData, GroupData, InputPeer, UserData,
};
use omniget_telegram::platforms::telegram::requests::{
    affected_count, channel_like, create_folder_channel, created_channel, delete_channel,
    delete_history, delete_messages, edit_caption, extract_channel_from_chats_pub,
    finish_takeout, forward_messages, get_self, init_takeout, leave_channel, make_input_peer,
    random_numbers, rename_channel, reorder_pinned, report_peer, restore_peer_hashes,
    set_archived, set_blocked, set_mute, set_takeout, toggle_pin, upload_media, DeleteMessages,
    LeaveRequest, Takeout,
};
use omniget_telegram::platforms::telegram::session::{ApiError, Session};

fn signed_in() -> Session {
    let mut s = Session::new();
    s.authenticated = true;
    s.peer_hashes.put(10, 99);
    s
}

fn channel(id: i64, hash: Option<i64>) -> Chat {
    Chat::Channel(ChannelData {
        id,
        title: "C".to_string(),
        username: None,
        access_hash: hash,
        broadcast: true,
        megagroup: false,
        verified: false,
        photo_id: None,
    })
}

#[test]
fn peers_are_addressed_by_their_type() {
    assert!(matches!(
        make_input_peer(1, "private", 2),
        InputPeer::User { user_id: 1, access_hash: 2 }
    ));
    assert!(matches!(make_input_peer(1, "group", 0), InputPeer::Chat { chat_id: 1 }));
    assert!(matches!(
        make_input_peer(1, "group", 2),
        InputPeer::Channel { channel_id: 1, access_hash: 2 }
    ));
    assert!(matches!(
        make_input_peer(1, "channel", 0),
        InputPeer::Channel { channel_id: 1, access_hash: 0 }
    ));
    assert!(matches!(make_input_peer(1, "other", 2), InputPeer::Empty));
}

#[test]
fn nobody_signed_in_is_refused() {
    let s = Session::new();
    match delete_channel(&s, 1) {
        Err(e) => assert_eq!(e.message(), "Not authenticated"),
        Ok(_) => panic!("accepted"),
    }
    assert!(rename_channel(&s, 1, "t".to_string()).is_err());
    assert!(delete_history(&s, 1, "channel", true, true).is_err());
    assert!(edit_caption(&s, 1, "channel", 1, String::new()).is_err());
    assert!(init_takeout(&s).is_err());
    assert!(create_folder_channel(&s, "x").is_err());
}

#[test]
fn known_hashes_are_used() {
    let s = signed_in();
    let c = delete_channel(&s, 10).ok().unwrap();
    assert_eq!((c.channel_id, c.access_hash), (10, 99));
    let c = delete_channel(&s, 11).ok().unwrap();
    assert_eq!((c.channel_id, c.access_hash), (11, 0));
    let e = rename_channel(&s, 10, "New".to_string()).ok().unwrap();
    assert_eq!((e.channel.access_hash, e.title.as_str()), (99, "New"));
}

#[test]
fn channels_and_groups_can_be_left() {
    let s = signed_in();
    assert!(matches!(leave_channel(&s, 10, "channel"), Ok(LeaveRequest::Channel(_))));
    assert!(matches!(
        leave_channel(&s, 10, "group"),
        Ok(LeaveRequest::Group { chat_id: 10, revoke_history: false })
    ));
    match leave_channel(&s, 10, "private") {
        Err(e) => assert_eq!(
            e.message(),
            "leave_channel: chat_type 'private' not supported (use channel or group)"
        ),
        Ok(_) => panic!("accepted"),
    }
}

#[test]
fn folders_are_channels_with_a_mark() {
    let s = signed_in();
    let r = create_folder_channel(&s, "  My files ").ok().unwrap();
    assert_eq!(r.title, "My files [og]");
    assert_eq!(r.about, "OmniGet Drive Folder\n[omniget-drive-folder]");
    assert!(r.broadcast && !r.megagroup);
}

#[test]
fn the_created_channel_is_remembered() {
    let mut s = signed_in();
    let group = Chat::Chat(GroupData { id: 3, title: "g".to_string(), photo_id: None });
    let chats = vec![group, channel(20, Some(7)), channel(21, Some(8))];
    assert_eq!(extract_channel_from_chats_pub(&chats), Some((20, 7)));
    assert_eq!(extract_channel_from_chats_pub(&vec![channel(4, None)]), Some((4, 0)));
    let c = created_channel(&mut s, &chats, "T".to_string()).ok().unwrap();
    assert_eq!((c.id, c.peer_hash, c.title.as_str()), (20, 7, "T"));
    assert_eq!(c.chat_type, "channel");
    assert_eq!(s.peer_hashes.get(20), Some(7));
    match created_channel(&mut s, &vec![], "T".to_string()) {
        Err(e) => assert_eq!(e.message(), "could not find channel id in response"),
        Ok(_) => panic!("accepted"),
    }
}

#[test]
fn histories_are_deleted_whole() {
    let r = delete_history(&signed_in(), 10, "channel", true, false).ok().unwrap();
    assert!(matches!(r.peer, InputPeer::Channel { channel_id: 10, access_hash: 99 }));
    assert_eq!((r.just_clear, r.revoke, r.max_id), (true, false, 0));
}

#[test]
fn messages_are_deleted_where_they_are() {
    let s = signed_in();
    assert!(matches!(
        delete_messages(&s, 10, "group", vec![], true),
        Ok(DeleteMessages::Nothing)
    ));
    assert!(matches!(
        delete_messages(&Session::new(), 10, "group", vec![], true),
        Ok(DeleteMessages::Nothing)
    ));
    match delete_messages(&s, 10, "group", vec![4, 5], true) {
        Ok(DeleteMessages::InChannel { channel, ids }) => {
            assert_eq!(channel.access_hash, 99);
            assert_eq!(ids, vec![4, 5]);
        }
        _ => panic!("not in a channel"),
    }
    match delete_messages(&s, 11, "group", vec![4], true) {
        Ok(DeleteMessages::Elsewhere { revoke, ids }) => {
            assert!(revoke);
            assert_eq!(ids, vec![4]);
        }
        _ => panic!("not elsewhere"),
    }
    assert_eq!(affected_count(7), 7);
    assert_eq!(affected_count(-1), u32::MAX);
    assert!(channel_like("channel", 0));
    assert!(!channel_like("group", 0));
    assert!(!channel_like("private", 5));
}

#[test]
fn each_forwarded_message_has_a_number() {
    let s = signed_in();
    let r = forward_messages(&s, 10, "channel", 11, "private", vec![1, 2, 3], true, false)
        .ok()
        .unwrap()
        .unwrap();
    assert_eq!(r.ids, vec![1, 2, 3]);
    assert_eq!(r.random_ids.len(), 3);
    assert!(r.drop_author && !r.drop_media_captions);
    assert!(matches!(r.from_peer, InputPeer::Channel { access_hash: 99, .. }));
    assert!(matches!(r.to_peer, InputPeer::User { user_id: 11, access_hash: 0 }));
    assert!(matches!(
        forward_messages(&Session::new(), 1, "x", 2, "y", vec![], false, false),
        Ok(None)
    ));
    assert!(matches!(
        forward_messages(&Session::new(), 1, "x", 2, "y", vec![1], false, false),
        Err(ApiError::NotAuthenticated)
    ));
    let many = random_numbers(8);
    assert_eq!(many.len(), 8);
    assert!(many.iter().any(|n| *n != many[0]));
}

#[test]
fn captions_that_are_empty_are_not_sent() {
    let s = signed_in();
    let r = edit_caption(&s, 10, "channel", 4, "x".to_string()).ok().unwrap();
    assert_eq!((r.id, r.message.as_str()), (4, "x"));
    assert_eq!(upload_media(&s, 10, "channel", Some("hi")).ok().unwrap().caption.as_deref(), Some("hi"));
    assert_eq!(upload_media(&s, 10, "channel", Some("")).ok().unwrap().caption, None);
    assert_eq!(upload_media(&s, 10, "channel", None).ok().unwrap().caption, None);
}

#[test]
fn mutes_are_kept_in_range() {
    let s = signed_in();
    assert_eq!(set_mute(&s, 10, "channel", -5).ok().unwrap().mute_until, 0);
    assert_eq!(set_mute(&s, 10, "channel", 77).ok().unwrap().mute_until, 77);
    assert_eq!(set_mute(&s, 10, "channel", i64::MAX).ok().unwrap().mute_until, i32::MAX);
}

#[test]
fn chats_are_pinned_archived_blocked_and_reported() {
    let s = signed_in();
    assert!(toggle_pin(&s, 10, "channel", true).ok().unwrap().1);
    assert_eq!(set_archived(&s, 10, "channel", true).ok().unwrap().1, 1);
    assert_eq!(set_archived(&s, 10, "channel", false).ok().unwrap().1, 0);
    assert!(!set_blocked(&s, 10, "private", false).ok().unwrap().1);
    let r = report_peer(&s, 10, "channel", vec![1], vec![2], "m".to_string()).ok().unwrap();
    assert_eq!((r.ids, r.option, r.message.as_str()), (vec![1], vec![2], "m"));
    let order = reorder_pinned(
        &s,
        &vec![(10, "channel".to_string()), (4, "private".to_string())],
    )
    .ok()
    .unwrap();
    assert_eq!(order.len(), 2);
    assert!(matches!(order[1], InputPeer::User { user_id: 4, access_hash: 0 }));
}

#[test]
fn hashes_of_nought_are_not_restored() {
    let mut s = Session::new();
    restore_peer_hashes(&mut s, &vec![(1, 5), (2, 0), (1, 6)]);
    assert_eq!(s.peer_hashes.get(1), Some(6));
    assert_eq!(s.peer_hashes.get(2), None);
    assert_eq!(s.peer_hashes.get_or_zero(2), 0);
}

#[test]
fn oneself_is_described() {
    let user = UserData {
        id: 5,
        first_name: None,
        last_name: Some("L".to_string()),
        username: None,
        phone: Some(String::new()),
        access_hash: None,
        verified: false,
        bot: false,
        online: false,
        photo_id: None,
    };
    let me = get_self(&user);
    assert_eq!((me.user_id, me.first_name.as_str()), (5, ""));
    assert_eq!(me.last_name.as_deref(), Some("L"));
    assert_eq!(me.phone, None);
}

#[test]
fn one_export_is_open_at_a_time() {
    let mut s = signed_in();
    assert!(matches!(
        init_takeout(&s),
        Ok(Takeout::Ask { file_max_size: 1_500_000_000 })
    ));
    assert!(matches!(finish_takeout(&s), Ok(false)));
    set_takeout(&mut s, Some(12));
    assert!(matches!(init_takeout(&s), Ok(Takeout::Open(12))));
    assert!(matches!(finish_takeout(&s), Ok(true)));
    set_takeout(&mut s, None);
    assert!(matches!(finish_takeout(&s), Ok(false)));
}
