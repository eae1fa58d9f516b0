use omniget_telegram::platforms::telegram::clone::{
    begin_run, cancel_clone, clone_id, create_destination_channel, destination,
    destination_created, fetch_all_message_ids, finish_clone, list_sessions, session_path,
    sessions_dir, start_clone, CloneEnd, CloneNext, CloneOptions, ClonePair, CloneSession, CloneStep,
    Destination,
};
use omniget_telegram::platforms::telegram::models::{
    ChannelData, Chat, InputPeer, Message, MessageData, MessagesReply, Peer,
};
use omniget_telegram::platforms::telegram::session::Session;

fn pair() -> ClonePair {
    ClonePair {
        source_chat_id: 1,
        source_chat_type: "channel".to_string(),
        source_title: "S".to_string(),
        dest_chat_id: 2,
        dest_chat_type: "channel".to_string(),
        dest_title: "D".to_string(),
    }
}

fn options(batch_size: u32, limit: Option<u32>) -> CloneOptions {
    CloneOptions { delay_ms: 0, batch_size, limit, drop_author: true, drop_captions: false }
}

fn session(batch_size: u32, limit: Option<u32>) -> CloneSession {
    start_clone("c".to_string(), None, pair(), options(batch_size, limit), 100)
}

fn message(id: i32) -> Message {
    Message::Message(MessageData {
        id,
        date: 0,
        peer: Peer::Channel(1),
        text: String::new(),
        grouped_id: None,
        media: None,
    })
}

#[test]
fn copies_have_default_options() {
    let o = CloneOptions::default();
    assert_eq!((o.delay_ms, o.batch_size, o.limit), (2000, 50, None));
    assert!(!o.drop_author && !o.drop_captions);
}

#[test]
fn copies_have_names_and_files() {
    assert_eq!(clone_id(&None, 77), "clone-77");
    assert_eq!(clone_id(&Some("x".to_string()), 77), "x");
    assert_eq!(sessions_dir().parts, vec!["clone_sessions".to_string()]);
    assert_eq!(
        session_path("x").parts,
        vec!["clone_sessions".to_string(), "x.json".to_string()]
    );
}

#[test]
fn copies_go_to_a_chat_or_a_new_channel() {
    match destination("S", Some(5), None, None) {
        Destination::Existing { chat_id, chat_type, title } => {
            assert_eq!((chat_id, chat_type.as_str(), title.as_str()), (5, "channel", "Canal 5"))
        }
        _ => panic!("not there"),
    }
    match destination("S", Some(5), Some("group".to_string()), Some("T".to_string())) {
        Destination::Existing { chat_type, title, .. } => {
            assert_eq!((chat_type.as_str(), title.as_str()), ("group", "T"))
        }
        _ => panic!("not there"),
    }
    match destination("S", None, None, None) {
        Destination::New { title } => assert_eq!(title, "S - clone"),
        _ => panic!("not new"),
    }
    match destination("S", None, None, Some("T".to_string())) {
        Destination::New { title } => assert_eq!(title, "T"),
        _ => panic!("not new"),
    }
}

#[test]
fn channels_are_created_for_copies() {
    let mut s = Session::new();
    assert!(create_destination_channel(&s, "T").is_err());
    s.authenticated = true;
    let r = create_destination_channel(&s, " T ").ok().unwrap();
    assert_eq!((r.title.as_str(), r.about.as_str()), (" T ", "Cloned by OmniGet"));
    assert!(r.broadcast && !r.megagroup);
    let channel = Chat::Channel(ChannelData {
        id: 4,
        title: String::new(),
        username: None,
        access_hash: Some(5),
        broadcast: true,
        megagroup: false,
        verified: false,
        photo_id: None,
    });
    assert_eq!(destination_created(&mut s, &vec![channel]), Ok((4, 5)));
    assert_eq!(s.peer_hashes.get(4), Some(5));
    assert_eq!(
        destination_created(&mut s, &vec![]),
        Err("could not find created channel id".to_string())
    );
}

#[test]
fn a_copy_begins_or_goes_on() {
    let s = session(50, None);
    assert_eq!((s.id.as_str(), s.status.as_str()), ("c", "running"));
    assert_eq!((s.created_at, s.updated_at, s.cloned_count), (100, 100, 0));
    assert_eq!(s.dest_title, "D");
    let mut stored = session(50, None);
    stored.cloned_count = 9;
    stored.status = "paused".to_string();
    stored.error = Some("x".to_string());
    let s = start_clone("c".to_string(), Some(stored), pair(), options(1, None), 200);
    assert_eq!((s.created_at, s.updated_at, s.cloned_count), (100, 200, 9));
    assert_eq!((s.status.as_str(), s.error), ("running", None));
    assert_eq!(s.options.batch_size, 50);
}

#[test]
fn copies_are_listed_by_their_last_work() {
    let at = |id: &str, now: i64| {
        start_clone(id.to_string(), None, pair(), options(1, None), now)
    };
    let list = list_sessions(vec![at("a", 1), at("b", 3), at("c", 2)]);
    let ids: Vec<&str> = list.iter().map(|s| s.id.as_str()).collect();
    assert_eq!(ids, vec!["b", "c", "a"]);
}

#[test]
fn messages_are_collected_down_the_history() {
    let mut s = Session::new();
    assert!(fetch_all_message_ids(&s, 1, "channel", 5).is_err());
    s.authenticated = true;
    let mut c = fetch_all_message_ids(&s, 1, "channel", 5).ok().unwrap();
    let r = c.request();
    assert_eq!((r.offset_id, r.limit), (0, 100));
    assert!(matches!(r.peer, InputPeer::Channel { channel_id: 1, .. }));
    let service = Message::Service { id: 9, date: 0, peer: Peer::Channel(1) };
    assert!(c.take_page(MessagesReply::Slice(vec![message(12), service, message(10)])));
    assert_eq!(c.request().offset_id, 10);
    assert!(!c.take_page(MessagesReply::Slice(vec![message(8), message(4)])));
    assert_eq!(c.finish(), vec![8, 10, 12]);
    let mut c = fetch_all_message_ids(&s, 1, "channel", 0).ok().unwrap();
    assert!(!c.take_page(MessagesReply::NotModified));
    assert!(c.finish().is_empty());
}

#[test]
fn messages_are_copied_in_batches() {
    let mut run = begin_run(session(2, None), vec![3, 4, 5], 101);
    assert_eq!(run.session.total_collected, 3);
    assert_eq!(run.run_clone(), Some(vec![3, 4]));
    run.forwarded(102);
    assert_eq!((run.session.cloned_count, run.session.last_message_id), (2, 4));
    assert_eq!(run.run_clone(), Some(vec![5]));
    run.forwarded(103);
    assert_eq!(run.run_clone(), None);
    assert_eq!((run.session.cloned_count, run.session.updated_at), (3, 103));
}

#[test]
fn batches_have_sizes_from_1_to_100() {
    let all: Vec<i32> = (1..=150).collect();
    let run = begin_run(session(0, None), all.clone(), 0);
    assert_eq!(run.run_clone(), Some(vec![1]));
    let run = begin_run(session(1000, None), all, 0);
    assert_eq!(run.run_clone().unwrap().len(), 100);
}

#[test]
fn a_limit_ends_the_copy() {
    let mut run = begin_run(session(2, Some(3)), vec![1, 2, 3, 4, 5], 0);
    run.forwarded(1);
    assert_eq!(run.run_clone(), Some(vec![3]));
    run.forwarded(1);
    assert_eq!(run.run_clone(), None);
    assert_eq!(run.session.cloned_count, 3);
    let run = begin_run(session(2, Some(0)), vec![1], 0);
    assert_eq!(run.run_clone(), None);
}

#[test]
fn a_cancelled_copy_stops_while_messages_are_pending() {
    let mut run = begin_run(session(2, Some(1)), vec![1, 2, 3], 0);
    assert!(matches!(run.go_on(false), CloneNext::Forward(v) if v == vec![1]));
    assert!(matches!(run.go_on(true), CloneNext::Cancelled));
    run.forwarded(1);
    assert!(matches!(run.go_on(false), CloneNext::Done));
    assert!(matches!(run.go_on(true), CloneNext::Cancelled));
    let mut run = begin_run(session(2, None), vec![1], 0);
    run.forwarded(1);
    assert!(matches!(run.go_on(true), CloneNext::Done));
}

#[test]
fn failures_of_a_batch_wait_end_or_count() {
    let mut run = begin_run(session(2, None), vec![1, 2, 3, 4, 5, 6], 0);
    assert!(matches!(
        run.forward_failed("rpc: flood_wait_30 x".to_string(), 1),
        CloneStep::Wait { secs: 30 }
    ));
    assert_eq!(run.run_clone(), Some(vec![3, 4]));
    assert!(matches!(
        run.forward_failed_given("x".to_string(), "FLOOD_WAIT", 1),
        CloneStep::Wait { secs: 15 }
    ));
    assert!(matches!(run.forward_failed("gone".to_string(), 7), CloneStep::Stored));
    assert_eq!((run.session.failed_count, run.session.updated_at), (2, 7));
    assert_eq!(run.session.error.as_deref(), Some("gone"));
    let mut run = begin_run(session(2, None), vec![1], 0);
    match run.forward_failed("CHAT_FORWARDS_RESTRICTED".to_string(), 1) {
        CloneStep::Fail(t) => assert!(t.starts_with("Conteúdo protegido")),
        _ => panic!("not failed"),
    }
}

#[test]
fn copies_end_completed_paused_or_in_error() {
    let mut s = session(1, None);
    assert!(matches!(finish_clone(&mut s, &Ok(()), 5), CloneEnd::Completed));
    assert_eq!((s.status.as_str(), s.updated_at), ("completed", 5));
    let stop = Err("cancelled".to_string());
    assert!(matches!(finish_clone(&mut s, &stop, 6), CloneEnd::Paused));
    assert_eq!((s.status.as_str(), s.error.as_deref()), ("paused", None));
    let bad = Err("x".to_string());
    assert!(matches!(finish_clone(&mut s, &bad, 7), CloneEnd::Error));
    assert_eq!((s.status.as_str(), s.error.as_deref()), ("error", Some("x")));
    cancel_clone(&mut s);
    assert_eq!((s.status.as_str(), s.updated_at), ("cancelled", 7));
}
