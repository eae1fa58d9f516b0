use omniget_telegram::commands::telegram::{
    telegram_qr_poll, telegram_qr_start, telegram_verify_code,
};
use omniget_telegram::platforms::telegram::auth::{
    after_poll_export, check_session, code_checked, code_sent, connection_params,
    drain_for_login_token, extract_phone_from_auth, handle_migrate, has_login_token_update,
    login_link, logout, password_asked, password_checked, poll_after_migrate, qr_from_picture,
    qr_login_poll, qr_login_start, send_code, start_after_migrate, token_to_qr, verify_code,
    verify_password, LoginState, MigrateResult, PasswordOutcome, PollStep, QrPollStatus,
    SignInOutcome, TokenReply, Update, UpdatesLike, VerifyError,
};
use omniget_telegram::platforms::telegram::models::{User, UserData};

fn user(phone: Option<&str>) -> Option<User> {
    Some(User::User(UserData {
        id: 1,
        first_name: None,
        last_name: None,
        username: None,
        phone: phone.map(|s| s.to_string()),
        access_hash: None,
        verified: false,
        bot: false,
        online: false,
        photo_id: None,
    }))
}

#[test]
fn the_device_is_described() {
    let d = connection_params("Linux", "6.1", "1.2.3", Some("pt-BR"));
    assert_eq!(d.device_model, "Desktop");
    assert_eq!(d.system_version, "Linux 6.1");
    assert_eq!(d.app_version, "1.2.3 x64");
    assert_eq!(d.system_lang_code, "pt");
    assert_eq!(d.lang_code, "en");
    assert_eq!(connection_params("a", "b", "c", None).system_lang_code, "en");
    assert_eq!(connection_params("a", "b", "c", Some("de")).system_lang_code, "de");
    assert_eq!(connection_params("a", "b", "c", Some("-x")).system_lang_code, "");
}

#[test]
fn a_token_becomes_a_link_and_a_picture() {
    assert_eq!(login_link(&vec![251, 255, 254, 1]), "tg://login?token=-__-AQ");
    assert_eq!(login_link(&vec![]), "tg://login?token=");
    let one = token_to_qr(&vec![1, 2, 3], 99).ok().unwrap();
    assert_eq!(one.expires, 99);
    assert!(one.qr_svg.contains("<svg") && one.qr_svg.contains("width=\""));
    let other = token_to_qr(&vec![1, 2, 4], 99).ok().unwrap();
    assert!(one.qr_svg != other.qr_svg);
    for byte in [0, 0x5d, 0xff] {
        assert!(token_to_qr(&vec![byte; 131], 1).is_ok());
        match token_to_qr(&vec![byte; 4189], 1) {
            Err(t) => assert!(t.starts_with("Failed to generate QR code: ")),
            Ok(_) => panic!("drawn"),
        }
    }
    match qr_from_picture(Err("too long".to_string()), 1) {
        Err(t) => assert_eq!(t, "Failed to generate QR code: too long"),
        Ok(_) => panic!("drawn"),
    }
    let r = telegram_qr_start(qr_from_picture(Ok("p".to_string()), 5).ok().unwrap());
    assert_eq!((r.svg.as_str(), r.expires), ("p", 5));
}

#[test]
fn news_of_a_scanned_code_are_found() {
    assert!(has_login_token_update(&UpdatesLike::Short(Update::LoginToken)));
    assert!(!has_login_token_update(&UpdatesLike::Short(Update::Other)));
    let list = vec![Update::Other, Update::LoginToken];
    assert!(has_login_token_update(&UpdatesLike::Updates(list)));
    assert!(!has_login_token_update(&UpdatesLike::Combined(vec![Update::Other])));
    assert!(!has_login_token_update(&UpdatesLike::Other));
    assert!(!drain_for_login_token(&vec![]));
    assert!(drain_for_login_token(&vec![
        UpdatesLike::Short(Update::LoginToken),
        UpdatesLike::Other,
    ]));
}

#[test]
fn a_session_that_is_authorized_is_kept() {
    let mut s = LoginState::new();
    assert_eq!(check_session(&mut s, false, None), Err("not_authenticated".to_string()));
    assert!(!s.has_client);
    assert_eq!(check_session(&mut s, false, Some("+1")), Ok("+1".to_string()));
    assert!(s.has_client);
    assert_eq!(s.phone, "+1");
    assert_eq!(check_session(&mut s, true, None), Ok("+1".to_string()));
}

#[test]
fn a_sign_in_by_code_begins_with_a_client() {
    let mut s = LoginState::new();
    assert!(qr_login_start(&mut s, false, "").is_ok());
    assert!(s.has_client && s.listening);
    assert_eq!(qr_login_start(&mut s, true, "+9"), Err("already_authenticated".to_string()));
    assert_eq!(s.phone, "+9");
    assert_eq!(qr_login_start(&mut s, true, ""), Err("already_authenticated".to_string()));
    assert_eq!(s.phone, "+9");
}

#[test]
fn a_code_is_followed_to_another_data_center() {
    let mut s = LoginState::new();
    let token = TokenReply::Token { token: vec![1], expires: 2 };
    assert!(matches!(
        handle_migrate(&mut s, token),
        MigrateResult::NewToken { expires: 2, .. }
    ));
    let scanned = TokenReply::Success { phone: "+3".to_string() };
    let r = handle_migrate(&mut s, scanned);
    assert!(matches!(r, MigrateResult::Success { ref phone } if phone == "+3"));
    assert_eq!(s.phone, "+3");
    assert_eq!(start_after_migrate(&r), Err("already_authenticated".to_string()));
    match handle_migrate(&mut s, TokenReply::MigrateTo { dc_id: 4 }) {
        MigrateResult::Fail(t) => assert_eq!(t, "Multiple DC migrations"),
        _ => panic!("followed twice"),
    }
    let locked = TokenReply::Failed("x SESSION_PASSWORD_NEEDED".to_string());
    assert!(matches!(handle_migrate(&mut s, locked), MigrateResult::AskPassword));
    match handle_migrate(&mut s, TokenReply::Failed("x".to_string())) {
        MigrateResult::Fail(t) => assert_eq!(t, "Import after DC migration failed: x"),
        _ => panic!("accepted"),
    }
    s.listening = true;
    password_asked(&mut s);
    assert!(s.has_password_token && !s.listening);
}

#[test]
fn a_shown_code_is_polled() {
    let mut s = LoginState::new();
    match qr_login_poll(&s, &vec![]) {
        PollStep::Fail(t) => assert_eq!(t, "No active client"),
        _ => panic!("polled"),
    }
    s.has_client = true;
    s.listening = true;
    assert!(matches!(qr_login_poll(&s, &vec![]), PollStep::Status(QrPollStatus::Waiting)));
    let news = vec![UpdatesLike::Short(Update::LoginToken)];
    assert!(matches!(qr_login_poll(&s, &news), PollStep::Export));
    s.listening = false;
    assert!(matches!(qr_login_poll(&s, &news), PollStep::Status(QrPollStatus::Waiting)));
}

#[test]
fn a_scanned_code_signs_in() {
    let mut s = LoginState::new();
    s.listening = true;
    let again = TokenReply::Token { token: vec![], expires: 1 };
    assert!(matches!(
        after_poll_export(&mut s, again),
        PollStep::Status(QrPollStatus::Waiting)
    ));
    assert!(matches!(
        after_poll_export(&mut s, TokenReply::MigrateTo { dc_id: 4 }),
        PollStep::Migrate { dc_id: 4 }
    ));
    let locked = TokenReply::Failed("SESSION_PASSWORD_NEEDED".to_string());
    assert!(matches!(after_poll_export(&mut s, locked), PollStep::AskPassword));
    match after_poll_export(&mut s, TokenReply::Failed("x".to_string())) {
        PollStep::Fail(t) => assert_eq!(t, "Poll error: x"),
        _ => panic!("accepted"),
    }
    let scanned = TokenReply::Success { phone: "+5".to_string() };
    assert!(matches!(
        after_poll_export(&mut s, scanned),
        PollStep::Status(QrPollStatus::Success { ref phone }) if phone == "+5"
    ));
    assert!(s.phone == "+5" && !s.listening);
    let moved = MigrateResult::Success { phone: "+6".to_string() };
    assert!(matches!(
        poll_after_migrate(moved),
        PollStep::Status(QrPollStatus::Success { ref phone }) if phone == "+6"
    ));
    assert!(matches!(poll_after_migrate(MigrateResult::AskPassword), PollStep::AskPassword));
}

#[test]
fn a_code_by_message_can_be_used_once() {
    let mut s = LoginState::new();
    assert!(matches!(verify_code(&mut s), Err(VerifyError::NoSession)));
    send_code(&mut s, "+7");
    assert!(s.has_client && s.phone == "+7" && !s.has_login_token);
    match verify_code(&mut s) {
        Err(VerifyError::Other(t)) => assert_eq!(t, "No login token available"),
        _ => panic!("accepted"),
    }
    code_sent(&mut s);
    assert!(verify_code(&mut s).is_ok());
    assert!(!s.has_login_token);
    assert!(matches!(
        code_checked(&mut s, SignInOutcome::InvalidCode),
        Err(VerifyError::InvalidCode)
    ));
    assert!(s.has_login_token);
    let locked = SignInOutcome::PasswordRequired { hint: Some("pet".to_string()) };
    assert!(matches!(
        code_checked(&mut s, locked),
        Err(VerifyError::PasswordRequired { ref hint }) if hint == "pet"
    ));
    assert!(s.has_password_token);
    let fine = SignInOutcome::Accepted { phone: None };
    assert!(matches!(code_checked(&mut s, fine), Ok(ref p) if p.is_empty()));
    assert!(!s.has_password_token);
    let failed = SignInOutcome::Failed("x".to_string());
    assert!(matches!(
        code_checked(&mut s, failed),
        Err(VerifyError::Other(ref t)) if t == "x"
    ));
}

#[test]
fn a_wrong_password_can_be_corrected() {
    let mut s = LoginState::new();
    assert_eq!(verify_password(&mut s), Err("No active session".to_string()));
    s.has_client = true;
    assert_eq!(verify_password(&mut s), Err("No password token available".to_string()));
    password_asked(&mut s);
    assert!(verify_password(&mut s).is_ok());
    assert!(!s.has_password_token);
    assert_eq!(
        password_checked(&mut s, PasswordOutcome::InvalidPassword),
        Err("invalid_password".to_string())
    );
    assert!(s.has_password_token);
    let fine = PasswordOutcome::Accepted { phone: Some("+8".to_string()) };
    assert_eq!(password_checked(&mut s, fine), Ok("+8".to_string()));
    assert_eq!(s.phone, "+8");
    let failed = PasswordOutcome::Failed("x".to_string());
    assert_eq!(password_checked(&mut s, failed), Err("x".to_string()));
    logout(&mut s);
    assert!(!s.has_client && s.phone.is_empty());
    assert!(!s.has_login_token && !s.has_password_token && !s.listening);
}

#[test]
fn phones_are_read_from_an_authorization() {
    assert_eq!(extract_phone_from_auth(&user(Some("+1"))), "+1");
    assert_eq!(extract_phone_from_auth(&user(None)), "");
    assert_eq!(extract_phone_from_auth(&Some(User::Empty)), "");
    assert_eq!(extract_phone_from_auth(&None), "");
}

#[test]
fn answers_about_a_sign_in_are_texts() {
    assert_eq!(telegram_qr_poll(&QrPollStatus::Waiting), "waiting");
    let phone = "+1".to_string();
    assert_eq!(telegram_qr_poll(&QrPollStatus::Success { phone }), "success:+1");
    let hint = String::new();
    assert_eq!(telegram_qr_poll(&QrPollStatus::PasswordRequired { hint }), "password_required");
    let hint = "pet".to_string();
    assert_eq!(
        telegram_qr_poll(&QrPollStatus::PasswordRequired { hint }),
        "password_required:pet"
    );
    assert_eq!(telegram_verify_code(Ok("+1".to_string())), Ok("+1".to_string()));
    let said = |e: VerifyError| telegram_verify_code(Err(e)).unwrap_err();
    assert_eq!(said(VerifyError::InvalidCode), "invalid_code");
    let hint = String::new();
    assert_eq!(said(VerifyError::PasswordRequired { hint }), "password_required:");
    assert_eq!(said(VerifyError::NoSession), "no_session");
    assert_eq!(said(VerifyError::Other("x".to_string())), "x");
}
