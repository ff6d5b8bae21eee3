use hackatime_setup::prompt::{consents, credential_from_line, normalize_answer};

#[test]
fn answers_are_trimmed_and_lowered() {
    assert_eq!(normalize_answer(b"  Yes \r\n"), b"yes".to_vec());
    assert_eq!(normalize_answer(b"\n"), Vec::<u8>::new());
    assert_eq!(normalize_answer(b"ABC-123 def"), b"abc-123 def".to_vec());
    assert_eq!(normalize_answer(b""), Vec::<u8>::new());
}

#[test]
fn only_an_n_declines() {
    assert!(consents(b""));
    assert!(consents(b"y"));
    assert!(consents(b"yes"));
    assert!(consents(b"ok"));
    assert!(!consents(b"n"));
    assert!(!consents(b"no"));
    assert!(!consents(b"nope"));
    assert!(!consents(b"maybe not"));
    assert!(consents(b"N"));
    assert!(!consents(&normalize_answer(b" N\n")));
    assert!(!consents(&normalize_answer(b"Never")));
}

#[test]
fn typed_credential_keeps_its_case() {
    assert_eq!(credential_from_line(b"  AbC-123\r\n"), b"AbC-123".to_vec());
    assert_eq!(credential_from_line(b"waka_0F3a B"), b"waka_0F3a B".to_vec());
    assert_eq!(credential_from_line(b" \n"), Vec::<u8>::new());
    assert_eq!(credential_from_line(b""), Vec::<u8>::new());
}
