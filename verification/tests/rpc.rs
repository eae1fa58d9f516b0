use omniget_telegram::platforms::telegram::rpc::{
    after_migrate, decide_invoke, invoke_with_flood_wait, is_channel_invalid_error,
    is_channel_invalid_in, is_retryable_error, is_retryable_in, parse_dc_migrate_error,
    parse_flood_wait, InvokeDecision, InvokeOutcome, MigrateEnd, Wait,
};

#[test]
fn file_migrate_returns_dc() {
    assert_eq!(parse_dc_migrate_error("FILE_MIGRATE_5"), Some(5));
    assert_eq!(parse_dc_migrate_error("FILE_MIGRATE_2"), Some(2));
}

#[test]
fn phone_migrate_returns_dc() {
    assert_eq!(parse_dc_migrate_error("PHONE_MIGRATE_4"), Some(4));
}

#[test]
fn user_migrate_returns_dc() {
    assert_eq!(parse_dc_migrate_error("USER_MIGRATE_3"), Some(3));
}

#[test]
fn network_migrate_returns_dc() {
    assert_eq!(parse_dc_migrate_error("NETWORK_MIGRATE_1"), Some(1));
}

#[test]
fn migrate_inside_longer_message_is_extracted() {
    assert_eq!(
        parse_dc_migrate_error("RpcError { code: 303, name: \"FILE_MIGRATE_2\" }"),
        Some(2)
    );
}

#[test]
fn no_migrate_returns_none() {
    assert_eq!(parse_dc_migrate_error("FLOOD_WAIT_30"), None);
    assert_eq!(parse_dc_migrate_error("MESSAGE_ID_INVALID"), None);
    assert_eq!(parse_dc_migrate_error(""), None);
    assert_eq!(parse_dc_migrate_error("random network error"), None);
}

#[test]
fn malformed_migrate_returns_none() {
    assert_eq!(parse_dc_migrate_error("FILE_MIGRATE_"), None);
    assert_eq!(parse_dc_migrate_error("FILE_MIGRATE_abc"), None);
}

#[test]
fn timedout_is_retryable() {
    assert!(is_retryable_error("RPC error: Timedout"));
    assert!(is_retryable_error("network: TIMEDOUT after 20s"));
}

#[test]
fn rpc_call_fail_is_retryable() {
    assert!(is_retryable_error("server returned RPC_CALL_FAIL"));
}

#[test]
fn worker_busy_is_retryable() {
    assert!(is_retryable_error("WORKER_BUSY_TOO_LONG_RETRY"));
}

#[test]
fn memory_limit_is_retryable() {
    assert!(is_retryable_error("memory limit exit"));
    assert!(is_retryable_error("MEMORY LIMIT EXIT"));
}

#[test]
fn flood_wait_is_not_classified_as_retryable() {
    assert!(!is_retryable_error("FLOOD_WAIT_30"));
    assert!(!is_retryable_error("FLOOD_PREMIUM_WAIT_5"));
}

#[test]
fn generic_errors_are_not_retryable() {
    assert!(!is_retryable_error("MESSAGE_ID_INVALID"));
    assert!(!is_retryable_error("CHANNEL_INVALID"));
    assert!(!is_retryable_error("auth required"));
}

fn failed(text: &str) -> InvokeOutcome {
    InvokeOutcome::Failed(text.to_string())
}

#[test]
fn flood_waits_are_read() {
    assert_eq!(parse_flood_wait("rpc error 420: FLOOD_WAIT_30"), Some(30));
    assert_eq!(parse_flood_wait("FLOOD_PREMIUM_WAIT_5 caused by x"), Some(5));
    assert_eq!(parse_flood_wait("FLOOD_WAIT_"), None);
    assert_eq!(parse_flood_wait("FLOOD_WAIT_x FLOOD_PREMIUM_WAIT_7"), Some(7));
    assert_eq!(parse_flood_wait("FLOOD_WAIT_99999999999999999999"), None);
    assert_eq!(parse_flood_wait(""), None);
}

#[test]
fn a_later_pattern_is_tried_where_the_first_is_malformed() {
    assert_eq!(parse_dc_migrate_error("FILE_MIGRATE_x PHONE_MIGRATE_3"), Some(3));
    assert_eq!(parse_dc_migrate_error("FILE_MIGRATE_2147483647"), Some(2147483647));
    assert_eq!(parse_dc_migrate_error("FILE_MIGRATE_2147483648"), None);
}

#[test]
fn network_failures_may_pass() {
    assert!(is_retryable_error("Connection Reset by peer"));
    assert!(is_retryable_error("request timed out"));
    assert!(is_retryable_error("unexpected EOF"));
    assert!(is_retryable_error("500 internal server error"));
    assert!(!is_retryable_error("network down, FLOOD_WAIT_3"));
}

#[test]
fn cases_are_folded_before_a_failure_is_judged() {
    assert!(is_retryable_in("x", "TIMEDOUT", "x"));
    assert!(is_retryable_in("x", "x", "broken pipe"));
    assert!(!is_retryable_in("timedout", "timedout", "BROKEN PIPE"));
    assert!(is_channel_invalid_in("CHANNEL_PRIVATE"));
    assert!(!is_channel_invalid_in("channel_private"));
    assert!(is_channel_invalid_error("rpc: channel_private"));
    assert!(is_channel_invalid_error("Peer_Id_Invalid"));
    assert!(is_channel_invalid_error("ACCESS_HASH_INVALID"));
    assert!(is_channel_invalid_error("chat_forbidden"));
    assert!(is_channel_invalid_error("CHANNEL_INVALID"));
    assert!(!is_channel_invalid_error("MESSAGE_ID_INVALID"));
}

#[test]
fn a_reply_ends_the_tries() {
    assert!(matches!(invoke_with_flood_wait(0, &InvokeOutcome::Reply), InvokeDecision::Return));
    assert!(matches!(invoke_with_flood_wait(3, &InvokeOutcome::Reply), InvokeDecision::Return));
}

#[test]
fn timeouts_are_tried_again_until_the_last_counted_attempt() {
    let out = InvokeOutcome::TimedOut;
    assert!(matches!(
        invoke_with_flood_wait(0, &out),
        InvokeDecision::Again { wait: Wait::No }
    ));
    assert!(matches!(
        invoke_with_flood_wait(1, &out),
        InvokeDecision::Again { wait: Wait::No }
    ));
    assert!(matches!(invoke_with_flood_wait(2, &out), InvokeDecision::Dropped));
    assert!(matches!(invoke_with_flood_wait(3, &out), InvokeDecision::Dropped));
}

#[test]
fn a_flood_wait_is_waited_for_and_one_second_more() {
    for attempt in 0..3 {
        assert!(matches!(
            invoke_with_flood_wait(attempt, &failed("FLOOD_WAIT_30")),
            InvokeDecision::Again { wait: Wait::Seconds(31) }
        ));
    }
    assert!(matches!(
        invoke_with_flood_wait(3, &failed("FLOOD_WAIT_30")),
        InvokeDecision::GiveUp
    ));
}

#[test]
fn a_request_follows_its_file_to_another_data_center() {
    assert!(matches!(
        invoke_with_flood_wait(0, &failed("FILE_MIGRATE_4")),
        InvokeDecision::Migrate { dc: 4 }
    ));
    assert!(matches!(
        after_migrate(false, &InvokeOutcome::Reply),
        MigrateEnd::FirstError
    ));
    assert!(matches!(after_migrate(true, &InvokeOutcome::Reply), MigrateEnd::Return));
    assert!(matches!(after_migrate(true, &failed("x")), MigrateEnd::SecondError));
    assert!(matches!(after_migrate(true, &InvokeOutcome::TimedOut), MigrateEnd::Dropped));
}

#[test]
fn passing_failures_back_off_and_others_end_the_tries() {
    assert!(matches!(
        invoke_with_flood_wait(1, &failed("RPC_CALL_FAIL")),
        InvokeDecision::Again { wait: Wait::Backoff(1) }
    ));
    assert!(matches!(
        invoke_with_flood_wait(2, &failed("RPC_CALL_FAIL")),
        InvokeDecision::GiveUp
    ));
    assert!(matches!(
        invoke_with_flood_wait(0, &failed("CHANNEL_INVALID")),
        InvokeDecision::GiveUp
    ));
    assert!(matches!(
        decide_invoke(0, &failed("anything"), true),
        InvokeDecision::Again { wait: Wait::Backoff(0) }
    ));
}
