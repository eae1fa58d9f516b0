use omniget_telegram::platforms::telegram::resume::{
    compute_fingerprint, fingerprint_bytes, fingerprint_of_digest, is_completed, mark_completed,
    resume_file_path, ResumeState,
};

#[test]
fn fingerprint_is_deterministic() {
    let a = compute_fingerprint(123, &vec![1, 2, 3]);
    let b = compute_fingerprint(123, &vec![1, 2, 3]);
    assert_eq!(a, b);
}

#[test]
fn fingerprint_ignores_message_id_order() {
    let a = compute_fingerprint(123, &vec![3, 1, 2]);
    let b = compute_fingerprint(123, &vec![1, 2, 3]);
    assert_eq!(a, b);
}

#[test]
fn fingerprint_changes_when_chat_id_differs() {
    let a = compute_fingerprint(100, &vec![1, 2, 3]);
    let b = compute_fingerprint(200, &vec![1, 2, 3]);
    assert_ne!(a, b);
}

#[test]
fn fingerprint_changes_when_message_set_differs() {
    let a = compute_fingerprint(123, &vec![1, 2, 3]);
    let b = compute_fingerprint(123, &vec![1, 2, 4]);
    assert_ne!(a, b);
}

#[test]
fn fingerprint_is_16_hex_chars() {
    let a = compute_fingerprint(123, &vec![1, 2, 3]);
    assert_eq!(a.len(), 16);
    assert!(a.chars().all(|c| c.is_ascii_hexdigit()));
}

#[test]
fn fingerprints_are_those_of_the_digest() {
    assert_eq!(compute_fingerprint(123, &vec![1, 2, 3]), "c6657ca7ca4f7cde");
    assert_eq!(compute_fingerprint(-5, &vec![9, -7]), "74666e3dfcb921a7");
    assert_eq!(fingerprint_bytes(1, &vec![3, 2]), vec![1, 0, 0, 0, 0, 0, 0, 0, 2, 0, 0, 0, 3, 0, 0, 0]);
    assert_eq!(fingerprint_of_digest(&vec![0, 1, 254, 255, 16, 17, 18, 19, 20]), "0001feff10111213");
}

#[test]
fn marked_messages_accumulate() {
    let mut s = ResumeState::default();
    assert!(s.completed.is_empty());
    assert_eq!(s.last_updated, 0);
    mark_completed(&mut s, 1, 10);
    mark_completed(&mut s, 2, 11);
    mark_completed(&mut s, 2, 12);
    assert_eq!(s.completed.len(), 2);
    assert!(is_completed(&s, 1) && is_completed(&s, 2) && !is_completed(&s, 3));
    assert_eq!(s.last_updated, 12);
}

#[test]
fn each_batch_has_its_file() {
    assert_eq!(
        resume_file_path("ab").parts,
        vec!["resume".to_string(), "ab.json".to_string()]
    );
}

#[test]
fn mark_completed_accumulates() {
    let mut state = ResumeState::default();
    mark_completed(&mut state, 1, 10);
    mark_completed(&mut state, 2, 11);
    mark_completed(&mut state, 3, 12);
    assert_eq!(state.completed.len(), 3);
    assert_eq!(state.last_updated, 12);
}
