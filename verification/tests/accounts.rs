use omniget_telegram::platforms::telegram::accounts::{
    backup_current_session, chrono_like_timestamp, list_backups, list_profiles, manifest_path,
    pre_restore_path, profile_dir, profile_session_path, redact_phone, remove_profile,
    rename_profile, restore_profile, save_current_as_profile, AccountsManifest,
};

#[test]
fn phones_show_their_last_four_digits() {
    assert_eq!(redact_phone("+55 (11) 98765-4321"), "***4321");
    assert_eq!(redact_phone("12345"), "***2345");
    assert_eq!(redact_phone("1234"), "***");
    assert_eq!(redact_phone("+123"), "***");
    assert_eq!(redact_phone("+1234"), "***1234");
    assert_eq!(redact_phone(""), "***");
}

#[test]
fn moments_are_written_in_digits() {
    assert_eq!(chrono_like_timestamp(0), "19700101-000000");
    assert_eq!(chrono_like_timestamp(951_868_799), "20000229-235959");
    assert_eq!(chrono_like_timestamp(1_794_700_805), "20261115-000005");
}

#[test]
fn a_session_is_saved_under_a_name() {
    let mut m = AccountsManifest::default();
    let p = save_current_as_profile(&mut m, true, "  Work ", Some("+5511999"), Some(7), 100)
        .ok()
        .unwrap();
    assert_eq!((p.id.as_str(), p.label.as_str()), ("acct-100", "Work"));
    assert_eq!(p.phone_redacted.as_deref(), Some("***1999"));
    assert_eq!((p.user_id, p.created_at, p.updated_at), (Some(7), 100, 100));
    let p = save_current_as_profile(&mut m, true, " ", Some("+5511999"), None, 101).ok().unwrap();
    assert_eq!(p.label, "***1999");
    let p = save_current_as_profile(&mut m, true, "", None, None, 102).ok().unwrap();
    assert_eq!((p.label.as_str(), p.phone_redacted), ("Sem nome", None));
    assert_eq!(m.profiles.len(), 3);
    match save_current_as_profile(&mut m, false, "x", None, None, 103) {
        Err(e) => assert_eq!(e.message(), "Nenhuma sessão ativa para salvar"),
        Ok(_) => panic!("saved"),
    }
    assert_eq!(m.profiles.len(), 3);
}

fn three() -> AccountsManifest {
    let mut m = AccountsManifest::default();
    for now in [10, 30, 20] {
        let _ = save_current_as_profile(&mut m, true, "x", None, None, now);
    }
    m
}

#[test]
fn profiles_are_listed_by_their_last_use() {
    let ids: Vec<String> = list_profiles(three()).into_iter().map(|p| p.id).collect();
    assert_eq!(ids, vec!["acct-30", "acct-20", "acct-10"]);
}

#[test]
fn profiles_can_be_renamed() {
    let mut m = three();
    let p = rename_profile(&mut m, "acct-10", " New ", 99).ok().unwrap();
    assert_eq!((p.label.as_str(), p.updated_at, p.created_at), ("New", 99, 10));
    assert_eq!(m.profiles[0].label, "New");
    assert_eq!(m.profiles[1].label, "x");
    match rename_profile(&mut m, "acct-11", "New", 99) {
        Err(e) => assert_eq!(e.message(), "Perfil 'acct-11' não encontrado"),
        Ok(_) => panic!("renamed"),
    }
}

#[test]
fn profiles_can_be_removed_and_restored() {
    let mut m = three();
    remove_profile(&mut m, "acct-30");
    remove_profile(&mut m, "acct-31");
    let ids: Vec<&str> = m.profiles.iter().map(|p| p.id.as_str()).collect();
    assert_eq!(ids, vec!["acct-10", "acct-20"]);
    assert!(restore_profile(&mut m, true, "acct-20", 77).is_ok());
    assert_eq!(m.profiles[1].updated_at, 77);
    match restore_profile(&mut m, false, "acct-30", 78) {
        Err(e) => assert_eq!(e.message(), "Perfil 'acct-30' não encontrado"),
        Ok(_) => panic!("restored"),
    }
}

#[test]
fn files_have_their_places() {
    let parts = |names: &[&str]| -> Vec<String> { names.iter().map(|s| s.to_string()).collect() };
    assert_eq!(manifest_path().parts, parts(&["accounts.json"]));
    assert_eq!(profile_dir("a").parts, parts(&["accounts", "a"]));
    assert_eq!(profile_session_path("a").parts, parts(&["accounts", "a", "telegram.session"]));
    assert_eq!(
        pre_restore_path(5).parts,
        vec!["backups".to_string(), "session-pre-restore-5.bak".to_string()]
    );
    let path = backup_current_session(true, 0).ok().unwrap();
    assert_eq!(
        path.parts,
        vec!["backups".to_string(), "session-19700101-000000.bak".to_string()]
    );
    match backup_current_session(false, 0) {
        Err(e) => assert_eq!(e.message(), "Nenhuma sessão ativa para backup"),
        Ok(_) => panic!("backed up"),
    }
}

#[test]
fn backups_are_listed_newest_first() {
    let found = vec![
        ("a".to_string(), 1),
        ("b".to_string(), 3),
        ("c".to_string(), 2),
        ("d".to_string(), 3),
    ];
    let names: Vec<String> = list_backups(found).into_iter().map(|b| b.0).collect();
    assert_eq!(names, vec!["b", "d", "c", "a"]);
}
