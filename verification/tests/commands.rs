use omniget_telegram::commands::telegram::{
    announced_size, batch_summary, item_failed, item_failed_given, item_status, plan_item,
    queue_error, telegram_cancel_batch, telegram_download_batch, telegram_download_media,
    ActiveDownloads, BatchCounts, BatchItem, ItemEnd, ItemPlan,
};
use omniget_telegram::commands::{
    answer, command_arguments, command_name, commands, find_command, handle_command,
    missing_text, unknown_text, Answer, ArgFault, ArgValue, Command, CommandError,
};
use omniget_telegram::json::{Json, Number};
use omniget_telegram::platforms::telegram::resume::{mark_completed, ResumeState};

fn text(s: &str) -> Json {
    Json::Text(s.to_string())
}

fn number(n: u64) -> Json {
    Json::Number(Number::Unsigned(n))
}

fn object(entries: Vec<(&str, Json)>) -> Json {
    Json::Object(entries.into_iter().map(|(k, v)| (k.to_string(), v)).collect())
}

fn values(name: &str, args: Vec<(&str, Json)>) -> Vec<ArgValue> {
    match handle_command(name, &object(args)) {
        Ok((_, v)) => v,
        Err(_) => panic!("refused"),
    }
}

fn fault(name: &str, args: Vec<(&str, Json)>) -> ArgFault {
    match handle_command(name, &object(args)) {
        Err(CommandError::Argument(f)) => f,
        _ => panic!("not refused"),
    }
}

#[test]
fn every_listed_command_is_understood() {
    let names = commands();
    assert_eq!(names.len(), 65);
    assert_eq!(names[0], "telegram_check_session");
    assert_eq!(names[9], "telegram_diag_list_media");
    assert_eq!(names[64], "telegram_upload_media");
    for n in &names {
        let c = find_command(n).unwrap();
        assert_eq!(command_name(c), n);
    }
}

#[test]
fn other_commands_are_refused() {
    match handle_command("telegram_fly", &Json::Null) {
        Err(CommandError::Unknown(n)) => assert_eq!(unknown_text(&n), "Unknown command: telegram_fly"),
        _ => panic!("understood"),
    }
    assert!(find_command("").is_none());
    assert!(find_command("telegram_check_sessio").is_none());
}

#[test]
fn needed_arguments_are_asked_for_by_name() {
    match fault("telegram_send_code", vec![]) {
        ArgFault::Missing(spec) => assert_eq!(missing_text(&spec), "missing 'phone'"),
        _ => panic!("not missing"),
    }
    match fault("telegram_cancel_op", vec![]) {
        ArgFault::Missing(spec) => assert_eq!(missing_text(&spec), "missing 'op_id'"),
        _ => panic!("not missing"),
    }
    match handle_command("telegram_send_code", &Json::Array(vec![])) {
        Err(CommandError::Argument(ArgFault::Missing(_))) => {}
        _ => panic!("not missing"),
    }
    match fault("telegram_set_mute", vec![("chatId", number(1)), ("chat_type", number(2))]) {
        ArgFault::Invalid(spec) => assert_eq!(spec.label, "chatType"),
        _ => panic!("not invalid"),
    }
    match fault("telegram_set_mute", vec![("chatId", text("1"))]) {
        ArgFault::Invalid(spec) => assert_eq!(spec.label, "chatId"),
        _ => panic!("the first fault was passed over"),
    }
}

#[test]
fn arguments_have_two_names() {
    let v = values(
        "telegram_set_mute",
        vec![("chat_id", number(1)), ("chatId", number(2)), ("chatType", text("group"))],
    );
    assert!(matches!(v[0], ArgValue::I64(1)));
    assert!(matches!(v[1], ArgValue::Str(ref s) if s == "group"));
    assert!(matches!(v[2], ArgValue::I64(0)));
    let v = values("telegram_delete_channel", vec![("chat_id", number(1)), ("chatId", number(2))]);
    assert!(matches!(v[0], ArgValue::I64(2)));
}

#[test]
fn numbers_are_held_to_their_ranges() {
    let args = |id: Json| vec![("chat_id", number(1)), ("chat_type", text("x")), ("message_id", id)];
    let v = values("telegram_expand_album", args(Json::Number(Number::Negative(-2147483648))));
    assert!(matches!(v[2], ArgValue::I32(i32::MIN)));
    assert!(matches!(
        fault("telegram_expand_album", args(number(2147483648))),
        ArgFault::Invalid(_)
    ));
    assert!(matches!(
        fault("telegram_expand_album", args(Json::Number(Number::Other))),
        ArgFault::Invalid(_)
    ));
    let over = vec![("chat_id", number(u64::MAX)), ("chat_type", text("x"))];
    assert!(matches!(fault("telegram_full_channel_info", over), ArgFault::Invalid(_)));
    let v = values("telegram_bandwidth_set_quota", vec![("quotaGb", number(u64::MAX))]);
    assert!(matches!(v[0], ArgValue::U64(u64::MAX)));
    let v = values("telegram_search_global", vec![("query", text("q"))]);
    assert!(matches!(v[1], ArgValue::U32(50)));
    let bad = vec![("query", text("q")), ("limit", text("5"))];
    assert!(matches!(fault("telegram_search_global", bad), ArgFault::Invalid(_)));
}

#[test]
fn lenient_arguments_fall_back() {
    let v = values(
        "telegram_list_participants",
        vec![
            ("chatId", number(1)),
            ("filter", number(3)),
            ("offset", number(4294967297)),
            ("limit", text("x")),
        ],
    );
    assert!(matches!(v[1], ArgValue::Str(ref s) if s == "recent"));
    assert!(matches!(v[2], ArgValue::I32(1)));
    assert!(matches!(v[3], ArgValue::I32(50)));
    assert!(matches!(v[4], ArgValue::OptStr(None)));
    let v = values(
        "telegram_set_blocked",
        vec![("chatId", number(1)), ("chatType", text("private")), ("blocked", text("no"))],
    );
    assert!(matches!(v[2], ArgValue::Bool(true)));
    let v = values("telegram_sync_settings_set", vec![("interval_min", number(7))]);
    assert!(matches!(v[0], ArgValue::OptBool(None)));
    assert!(matches!(v[1], ArgValue::OptU64(Some(7))));
}

#[test]
fn lists_are_strict_or_lenient() {
    let base = |ids: Json| {
        vec![("chat_id", number(1)), ("chat_type", text("x")), ("message_ids", ids)]
    };
    let v = values("telegram_delete_messages", base(Json::Array(vec![number(1), number(2)])));
    assert!(matches!(v[2], ArgValue::I32List(ref l) if *l == vec![1, 2]));
    assert!(matches!(v[3], ArgValue::Bool(true)));
    assert!(matches!(
        fault("telegram_delete_messages", base(Json::Array(vec![number(1), text("2")]))),
        ArgFault::Invalid(_)
    ));
    let v = values(
        "telegram_report_peer",
        vec![
            ("chatId", number(1)),
            ("chatType", text("x")),
            ("messageIds", Json::Array(vec![number(1), text("2"), number(4294967299)])),
            ("option", Json::Array(vec![number(258), Json::Number(Number::Negative(-1))])),
        ],
    );
    assert!(matches!(v[2], ArgValue::I32List(ref l) if *l == vec![1, 3]));
    assert!(matches!(v[3], ArgValue::Bytes(ref l) if *l == vec![2, 255]));
    assert!(matches!(v[4], ArgValue::Str(ref s) if s.is_empty()));
}

#[test]
fn pairs_and_pins_are_picked_out() {
    let rows = Json::Array(vec![
        Json::Array(vec![number(1), number(2)]),
        Json::Array(vec![number(3)]),
        Json::Array(vec![]),
    ]);
    let v = values("telegram_restore_peer_hashes", vec![("items", rows)]);
    assert!(matches!(v[0], ArgValue::Pairs(ref l) if *l == vec![(1, 2)]));
    let bad = Json::Array(vec![number(1)]);
    assert!(matches!(
        fault("telegram_restore_peer_hashes", vec![("items", bad)]),
        ArgFault::Invalid(_)
    ));
    let pins = Json::Array(vec![
        object(vec![("chatId", number(1)), ("chat_type", text("a"))]),
        object(vec![("chatId", number(1))]),
        number(5),
    ]);
    let v = values("telegram_reorder_pinned", vec![("items", pins)]);
    assert!(matches!(v[0], ArgValue::Pinned(ref l) if *l == vec![(1, "a".to_string())]));
}

#[test]
fn a_page_of_chats_begins_at_a_whole_peer() {
    let peer = object(vec![
        ("peerId", number(1)),
        ("peer_type", text("group")),
        ("peerHash", Json::Number(Number::Negative(-3))),
    ]);
    let v = values("telegram_list_chats_page", vec![("offsetPeer", peer)]);
    assert!(matches!(v[2], ArgValue::I32(40)));
    assert!(matches!(
        v[3],
        ArgValue::Peer(Some((1, ref t, -3))) if t == "group"
    ));
    let part = object(vec![("peerId", number(1))]);
    let v = values("telegram_list_chats_page", vec![("offsetPeer", part)]);
    assert!(matches!(v[3], ArgValue::Peer(None)));
}

#[test]
fn files_of_a_batch_are_read() {
    let args = |items: Json| {
        vec![
            ("chatId", number(1)),
            ("chatType", text("x")),
            ("chatTitle", text("t")),
            ("items", items),
            ("outputDir", text("/o")),
        ]
    };
    let item = object(vec![
        ("message_id", number(4)),
        ("file_name", text("f")),
        ("file_size", number(9)),
        ("more", Json::Null),
    ]);
    let listed = Json::Array(vec![number(5), text("g"), number(0)]);
    let v = values("telegram_download_batch", args(Json::Array(vec![item, listed])));
    match &v[3] {
        ArgValue::Items(l) => {
            assert_eq!((l[0].message_id, l[0].file_name.as_str(), l[0].file_size), (4, "f", 9));
            assert_eq!(announced_size(&l[0]), Some(9));
            assert_eq!((l[1].message_id, announced_size(&l[1])), (5, None));
        }
        _ => panic!("no files"),
    }
    assert!(matches!(v[5], ArgValue::Bool(false)));
    let part = object(vec![("message_id", number(4))]);
    assert!(matches!(
        fault("telegram_download_batch", args(Json::Array(vec![part]))),
        ArgFault::Invalid(_)
    ));
}

#[test]
fn a_copy_has_optional_arguments() {
    let v = values(
        "telegram_clone_start",
        vec![("source_id", number(1)), ("sourceType", text("channel")), ("options", Json::Null)],
    );
    assert!(matches!(v[2], ArgValue::Str(ref s) if s == "Origem"));
    assert!(matches!(v[3], ArgValue::OptI64(None)));
    assert!(matches!(v[7], ArgValue::Raw(true)));
    assert_eq!(command_arguments(Command::CloneStart).len(), 8);
    assert!(command_arguments(Command::GetSelf).is_empty());
}

#[test]
fn commands_answer_alike() {
    assert_eq!(answer(Command::Logout), Answer::Null);
    assert_eq!(answer(Command::EditCaption), Answer::Done);
    assert_eq!(answer(Command::AccountsRestore), Answer::DoneNeedsRestart);
    assert_eq!(answer(Command::ListChats), Answer::Value);
}

// ------------------------------------------------------------ downloads

#[test]
fn a_download_runs_once() {
    let mut a = ActiveDownloads::new();
    let started = telegram_download_media(&mut a, 5, -10, 3, "f").ok().unwrap();
    assert_eq!((started.id, started.file_name.as_str()), (5, "f"));
    assert_eq!(
        telegram_download_media(&mut a, 6, -10, 3, "f").err().unwrap(),
        "Download already in progress"
    );
    assert!(telegram_download_media(&mut a, 6, -10, 4, "g").is_ok());
    a.finish(5);
    assert!(telegram_download_media(&mut a, 7, -10, 3, "f").is_ok());
}

#[test]
fn batches_can_be_cancelled_while_they_run() {
    let mut a = ActiveDownloads::new();
    telegram_download_batch(&mut a, 9);
    let _ = telegram_download_media(&mut a, 8, 1, 2, "f");
    assert!(telegram_cancel_batch(&a, 9).is_ok());
    assert_eq!(telegram_cancel_batch(&a, 8), Err("Batch not found".to_string()));
    a.finish(9);
    assert_eq!(telegram_cancel_batch(&a, 9), Err("Batch not found".to_string()));
    telegram_download_batch(&mut a, 8);
    assert!(telegram_cancel_batch(&a, 8).is_ok());
    assert!(telegram_download_media(&mut a, 10, 1, 2, "f").is_ok());
}

#[test]
fn files_are_skipped_where_they_are_there() {
    let mut state = ResumeState::default();
    mark_completed(&mut state, 7, 0);
    assert_eq!(plan_item(true, Some(&state), 7, Some(5)), ItemPlan::Stop);
    assert_eq!(plan_item(false, Some(&state), 7, Some(5)), ItemPlan::Resumed);
    assert_eq!(plan_item(false, None, 7, Some(5)), ItemPlan::Skip);
    assert_eq!(plan_item(false, Some(&state), 8, Some(0)), ItemPlan::Download);
    assert_eq!(plan_item(false, Some(&state), 8, None), ItemPlan::Download);
    let item = BatchItem { message_id: 1, file_name: "f".to_string(), file_size: 0 };
    assert_eq!(announced_size(&item), None);
}

#[test]
fn failures_of_files_are_told_apart() {
    assert_eq!(item_failed("Download cancelled"), ItemEnd::Cancelled);
    assert_eq!(item_failed("rpc: message_id_invalid"), ItemEnd::Deleted);
    assert_eq!(item_failed("MessageDeleted"), ItemEnd::Deleted);
    assert_eq!(item_failed("MESSAGE_DELETED"), ItemEnd::Deleted);
    assert_eq!(item_failed("timeout"), ItemEnd::Failed);
    assert_eq!(item_failed_given("x", "MESSAGE_ID_INVALID"), ItemEnd::Deleted);
    assert_eq!(item_failed_given("x", "message_id_invalid"), ItemEnd::Failed);
    assert_eq!(queue_error(ItemEnd::Deleted, "e").as_deref(), Some("skipped (deleted): e"));
    assert_eq!(queue_error(ItemEnd::Failed, "e").as_deref(), Some("e"));
    assert_eq!(queue_error(ItemEnd::Cancelled, "e"), None);
}

#[test]
fn ends_have_names() {
    assert_eq!(item_status(ItemEnd::Resumed), Some(("resumed_skip", true)));
    assert_eq!(item_status(ItemEnd::Skipped), Some(("skipped", true)));
    assert_eq!(item_status(ItemEnd::Done), Some(("done", true)));
    assert_eq!(item_status(ItemEnd::Deleted), Some(("skipped_deleted", true)));
    assert_eq!(item_status(ItemEnd::Failed), Some(("error", false)));
    assert_eq!(item_status(ItemEnd::Cancelled), None);
}

#[test]
fn every_file_of_a_batch_is_counted() {
    let mut c = BatchCounts::new();
    assert_eq!(c.note(ItemEnd::Resumed), Some(1));
    assert_eq!(c.note(ItemEnd::Done), Some(2));
    assert_eq!(c.note(ItemEnd::Skipped), Some(2));
    assert_eq!(c.note(ItemEnd::Cancelled), None);
    assert_eq!(c.note(ItemEnd::Deleted), Some(4));
    let s = batch_summary(&c, false);
    assert!(s.success);
    assert_eq!(s.error.as_deref(), Some("1 messages deleted/invalid (skipped)"));
    assert_eq!((s.file_count, s.deleted_count), (3, Some(1)));
    assert_eq!(c.note(ItemEnd::Failed), Some(5));
    let s = batch_summary(&c, false);
    assert!(!s.success);
    assert_eq!(
        s.error.as_deref(),
        Some("1 files failed; 1 messages deleted/invalid (skipped)")
    );
    let s = batch_summary(&c, true);
    assert_eq!(s.error.as_deref(), Some("Batch cancelled"));
    let s = batch_summary(&BatchCounts::new(), true);
    assert!(!s.success);
    let s = batch_summary(&BatchCounts::new(), false);
    assert!(s.success && s.error.is_none() && s.deleted_count.is_none());
}
