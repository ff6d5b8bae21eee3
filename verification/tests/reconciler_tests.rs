use hackatime_setup::document::Lookup;
use hackatime_setup::reconciler::{
    credential_source, is_storable, AbortCause, Action, CredentialSource, Event, Phase,
    Reconciler,
};
use hackatime_setup::validator::{classify_status, ValidationOutcome};

const URL: &[u8] = b"https://hackatime.hackclub.com/api/hackatime/v1";

fn valid_file(key: &str) -> Vec<u8> {
    format!(
        "[settings]\napi_url = https://hackatime.hackclub.com/api/hackatime/v1\napi_key = {key}\nheartbeat_rate_limit_seconds = 30"
    )
    .into_bytes()
}

#[test]
fn new_run_asks_for_the_file() {
    let run = Reconciler::new();
    assert_eq!(*run.phase(), Phase::Start);
    assert_eq!(run.awaited(), Action::Load);
    assert!(!run.is_finished());
}

#[test]
fn valid_file_is_validated_and_not_written() {
    let file = valid_file("abc");
    let (run, action) = Reconciler::new().step(Event::Loaded(Some(file.clone())));
    assert_eq!(action, Action::Validate { credential: b"abc".to_vec() });
    assert!(!run.document().is_dirty());
    let (run, action) = run.step(Event::Outcome(ValidationOutcome::Accepted));
    assert_eq!(action, Action::Finish { write: None, exit_code: 0 });
    assert_eq!(*run.phase(), Phase::Ready { credential: b"abc".to_vec() });
    assert_eq!(run.document().serialize(), file);
    assert!(run.is_finished());
}

#[test]
fn missing_endpoint_is_appended_and_written() {
    let file = b"# mine\n[settings]\napi_key = abc\ndebug = true".to_vec();
    let (run, action) = Reconciler::new().step(Event::Loaded(Some(file)));
    assert_eq!(action, Action::Validate { credential: b"abc".to_vec() });
    assert!(run.document().is_dirty());
    assert_eq!(run.document().line_count(), 5);
    assert_eq!(run.document().line(0), b"# mine".to_vec());
    assert_eq!(run.document().line(1), b"[settings]".to_vec());
    assert_eq!(run.document().line(2), b"api_key = abc".to_vec());
    assert_eq!(run.document().line(3), b"debug = true".to_vec());
    assert_eq!(
        run.document().line(4),
        b"api_url = https://hackatime.hackclub.com/api/hackatime/v1".to_vec()
    );
    let (_, action) = run.step(Event::Outcome(ValidationOutcome::Accepted));
    assert_eq!(
        action,
        Action::Finish {
            write: Some(
                b"# mine\n[settings]\napi_key = abc\ndebug = true\napi_url = https://hackatime.hackclub.com/api/hackatime/v1"
                    .to_vec()
            ),
            exit_code: 0,
        }
    );
}

#[test]
fn wrong_endpoint_is_put_right_without_asking() {
    let file = b"[settings]\napi_url = https://wakatime.com/api/v1\napi_key = abc".to_vec();
    let (run, action) = Reconciler::new().step(Event::Loaded(Some(file)));
    assert_eq!(action, Action::Validate { credential: b"abc".to_vec() });
    assert_eq!(run.document().get(b"settings", b"api_url"), Lookup::Value(URL.to_vec()));
    let (_, action) = run.step(Event::Outcome(ValidationOutcome::Accepted));
    assert_eq!(
        action,
        Action::Finish {
            write: Some(
                b"[settings]\napi_url = https://hackatime.hackclub.com/api/hackatime/v1\napi_key = abc"
                    .to_vec()
            ),
            exit_code: 0,
        }
    );
}

#[test]
fn malformed_line_is_shown_and_refusal_aborts() {
    let file = b"[settings]\napi_url = x\napi_key api_key_without_equals".to_vec();
    let (run, action) = Reconciler::new().step(Event::Loaded(Some(file.clone())));
    assert_eq!(
        action,
        Action::AskReplace { line: 2, text: b"api_key api_key_without_equals".to_vec() }
    );
    assert_eq!(run.document().serialize(), file);
    assert!(!run.document().is_dirty());
    let (run, action) = run.step(Event::Choice(false));
    assert_eq!(action, Action::Finish { write: None, exit_code: 1 });
    assert_eq!(*run.phase(), Phase::Aborted { cause: AbortCause::Declined });
    assert_eq!(run.document().serialize(), file);
    assert!(run.is_finished());
}

#[test]
fn malformed_line_and_consent_replace_the_whole_file() {
    let file = b"[settings]\nextra = kept?\napi_key api_key_without_equals".to_vec();
    let (run, _) = Reconciler::new().step(Event::Loaded(Some(file)));
    let (run, action) = run.step(Event::Choice(true));
    assert_eq!(action, Action::ObtainCredential { rejected: None });
    let (run, action) = run.step(Event::Credential(b"fresh".to_vec()));
    assert_eq!(action, Action::Validate { credential: b"fresh".to_vec() });
    let (run, action) = run.step(Event::Outcome(ValidationOutcome::Accepted));
    assert_eq!(action, Action::Finish { write: Some(valid_file("fresh")), exit_code: 0 });
    assert_eq!(*run.phase(), Phase::Ready { credential: b"fresh".to_vec() });
}

#[test]
fn missing_file_is_created_with_the_accepted_credential() {
    let (run, action) = Reconciler::new().step(Event::Loaded(None));
    assert_eq!(action, Action::ObtainCredential { rejected: None });
    assert!(run.document().is_created());
    let (run, _) = run.step(Event::Credential(b"0123-abcd".to_vec()));
    let (_, action) = run.step(Event::Outcome(ValidationOutcome::Accepted));
    assert_eq!(action, Action::Finish { write: Some(valid_file("0123-abcd")), exit_code: 0 });
}

#[test]
fn rejected_credentials_are_forgotten_and_the_last_one_is_kept() {
    let (mut run, _) = Reconciler::new().step(Event::Loaded(None));
    let offered: Vec<(&[u8], u16)> = vec![(b"bad-1", 401), (b"bad-2", 401), (b"bad-3", 401), (b"good", 200)];
    let mut last = Action::Load;
    for (credential, status) in offered {
        let (next, action) = run.step(Event::Credential(credential.to_vec()));
        assert_eq!(action, Action::Validate { credential: credential.to_vec() });
        let (next, action) = next.step(Event::Outcome(classify_status(status)));
        if status == 401 {
            assert_eq!(action, Action::ObtainCredential { rejected: Some(credential.to_vec()) });
            assert!(!next.is_finished());
        }
        run = next;
        last = action;
    }
    assert_eq!(last, Action::Finish { write: Some(valid_file("good")), exit_code: 0 });
    assert_eq!(*run.phase(), Phase::Ready { credential: b"good".to_vec() });
    assert_eq!(run.document().get(b"settings", b"api_key"), Lookup::Value(b"good".to_vec()));
}

#[test]
fn rejected_key_from_the_file_is_replaced_in_place() {
    let (run, action) = Reconciler::new().step(Event::Loaded(Some(valid_file("stale"))));
    assert_eq!(action, Action::Validate { credential: b"stale".to_vec() });
    let (run, action) = run.step(Event::Outcome(ValidationOutcome::Rejected));
    assert_eq!(action, Action::ObtainCredential { rejected: Some(b"stale".to_vec()) });
    assert_eq!(*run.phase(), Phase::NeedsCredential { rejected: Some(b"stale".to_vec()) });
    let (run, _) = run.step(Event::Credential(b"current".to_vec()));
    let (_, action) = run.step(Event::Outcome(ValidationOutcome::Accepted));
    assert_eq!(action, Action::Finish { write: Some(valid_file("current")), exit_code: 0 });
}

#[test]
fn missing_credential_is_asked_for_and_appended() {
    let file = b"[settings]\napi_url = https://hackatime.hackclub.com/api/hackatime/v1".to_vec();
    let (run, action) = Reconciler::new().step(Event::Loaded(Some(file)));
    assert_eq!(action, Action::ObtainCredential { rejected: None });
    assert!(!run.document().is_dirty());
    let (run, _) = run.step(Event::Credential(b"k".to_vec()));
    let (_, action) = run.step(Event::Outcome(ValidationOutcome::Accepted));
    assert_eq!(
        action,
        Action::Finish {
            write: Some(
                b"[settings]\napi_url = https://hackatime.hackclub.com/api/hackatime/v1\napi_key = k"
                    .to_vec()
            ),
            exit_code: 0,
        }
    );
}

#[test]
fn service_error_aborts_without_a_write() {
    let file = b"[settings]\napi_key = abc".to_vec();
    let (run, _) = Reconciler::new().step(Event::Loaded(Some(file)));
    assert!(run.document().is_dirty());
    let (run, action) = run.step(Event::Outcome(classify_status(500)));
    assert_eq!(action, Action::Finish { write: None, exit_code: 1 });
    assert_eq!(*run.phase(), Phase::Aborted { cause: AbortCause::ServiceFailure });
    let (run, action) = run.step(Event::Outcome(ValidationOutcome::Accepted));
    assert_eq!(action, Action::Finish { write: None, exit_code: 1 });
    assert_eq!(*run.phase(), Phase::Aborted { cause: AbortCause::ServiceFailure });
}

#[test]
fn unexpected_events_change_nothing() {
    let (run, action) = Reconciler::new().step(Event::Choice(true));
    assert_eq!(action, Action::Load);
    assert_eq!(*run.phase(), Phase::Start);
    let (run, _) = run.step(Event::Loaded(None));
    let (run, action) = run.step(Event::Outcome(ValidationOutcome::Accepted));
    assert_eq!(action, Action::ObtainCredential { rejected: None });
    let (run, _) = run.step(Event::Credential(b"k".to_vec()));
    let (run, action) = run.step(Event::Credential(b"other".to_vec()));
    assert_eq!(action, Action::Validate { credential: b"k".to_vec() });
    let (run, _) = run.step(Event::Outcome(ValidationOutcome::Accepted));
    let (run, action) = run.step(Event::Loaded(None));
    assert_eq!(action, Action::Finish { write: None, exit_code: 0 });
    assert_eq!(*run.phase(), Phase::Ready { credential: b"k".to_vec() });
}

#[test]
fn second_run_on_the_written_file_writes_nothing() {
    let (run, _) = Reconciler::new().step(Event::Loaded(None));
    let (run, _) = run.step(Event::Credential(b"key".to_vec()));
    let (_, action) = run.step(Event::Outcome(ValidationOutcome::Accepted));
    let written = match action {
        Action::Finish { write: Some(bytes), .. } => bytes,
        other => panic!("no write: {:?}", other),
    };
    let (run, action) = Reconciler::new().step(Event::Loaded(Some(written)));
    assert_eq!(action, Action::Validate { credential: b"key".to_vec() });
    let (_, action) = run.step(Event::Outcome(ValidationOutcome::Accepted));
    assert_eq!(action, Action::Finish { write: None, exit_code: 0 });
}

#[test]
fn override_comes_first_but_only_once() {
    assert_eq!(
        credential_source(&None, Some(b"from-env".to_vec())),
        CredentialSource::Override(b"from-env".to_vec())
    );
    assert_eq!(credential_source(&None, None), CredentialSource::Prompt);
    assert_eq!(
        credential_source(&Some(b"from-env".to_vec()), Some(b"from-env".to_vec())),
        CredentialSource::Prompt
    );
    assert_eq!(credential_source(&Some(b"typed".to_vec()), None), CredentialSource::Prompt);
}

#[test]
fn empty_file_gets_a_settings_section() {
    let (run, action) = Reconciler::new().step(Event::Loaded(Some(Vec::new())));
    assert_eq!(action, Action::ObtainCredential { rejected: None });
    assert_eq!(run.document().get(b"settings", b"api_url"), Lookup::Value(URL.to_vec()));
    let (run, _) = run.step(Event::Credential(b"k".to_vec()));
    let (run, action) = run.step(Event::Outcome(ValidationOutcome::Accepted));
    let written: Vec<u8> =
        b"\n[settings]\napi_url = https://hackatime.hackclub.com/api/hackatime/v1\napi_key = k".to_vec();
    assert_eq!(action, Action::Finish { write: Some(written.clone()), exit_code: 0 });
    assert_eq!(run.document().get(b"settings", b"api_key"), Lookup::Value(b"k".to_vec()));
    let (again, action) = Reconciler::new().step(Event::Loaded(Some(written)));
    assert_eq!(action, Action::Validate { credential: b"k".to_vec() });
    let (_, action) = again.step(Event::Outcome(ValidationOutcome::Accepted));
    assert_eq!(action, Action::Finish { write: None, exit_code: 0 });
}

#[test]
fn settings_are_added_inside_their_section() {
    let file = b"[settings]\ndebug = true\n[other]\napi_key = elsewhere".to_vec();
    let (run, action) = Reconciler::new().step(Event::Loaded(Some(file)));
    assert_eq!(action, Action::ObtainCredential { rejected: None });
    let (run, _) = run.step(Event::Credential(b"mine".to_vec()));
    let (run, action) = run.step(Event::Outcome(ValidationOutcome::Accepted));
    assert_eq!(
        action,
        Action::Finish {
            write: Some(
                b"[settings]\ndebug = true\n[other]\napi_key = elsewhere\n[settings]\napi_url = https://hackatime.hackclub.com/api/hackatime/v1\napi_key = mine"
                    .to_vec()
            ),
            exit_code: 0,
        }
    );
    assert_eq!(run.document().get(b"settings", b"api_key"), Lookup::Value(b"mine".to_vec()));
    assert_eq!(run.document().get(b"settings", b"api_url"), Lookup::Value(URL.to_vec()));
    assert_eq!(run.document().get(b"other", b"api_key"), Lookup::Value(b"elsewhere".to_vec()));
    assert_eq!(run.document().get(b"settings", b"debug"), Lookup::Value(b"true".to_vec()));
}

#[test]
fn credential_the_file_cannot_hold_is_refused_unsent() {
    let unfit: Vec<&[u8]> = vec![b"a=b", b" padded", b"padded ", b"two\nlines", b"nul\0inside", b"tab\t"];
    for credential in unfit {
        assert!(!is_storable(credential));
        let (run, _) = Reconciler::new().step(Event::Loaded(None));
        let (run, action) = run.step(Event::Credential(credential.to_vec()));
        assert_eq!(action, Action::ObtainCredential { rejected: Some(credential.to_vec()) });
        assert_eq!(*run.phase(), Phase::NeedsCredential { rejected: Some(credential.to_vec()) });
        let (run, action) = run.step(Event::Outcome(ValidationOutcome::Accepted));
        assert_eq!(action, Action::ObtainCredential { rejected: Some(credential.to_vec()) });
        assert!(!run.is_finished());
        let (run, action) = run.step(Event::Credential(b"fit".to_vec()));
        assert_eq!(action, Action::Validate { credential: b"fit".to_vec() });
        let (_, action) = run.step(Event::Outcome(ValidationOutcome::Accepted));
        assert_eq!(action, Action::Finish { write: Some(valid_file("fit")), exit_code: 0 });
    }
}

#[test]
fn storable_credentials_are_told_apart() {
    assert!(is_storable(b"0123-abcd-EF"));
    assert!(is_storable(b"inner space"));
    assert!(is_storable(b""));
    assert!(is_storable(b"[odd]#;"));
    assert!(!is_storable(b"="));
    assert!(!is_storable(b"\n"));
    assert!(!is_storable(b"\r\n"));
    assert!(!is_storable(b"\0"));
}

#[test]
fn written_file_is_always_in_order() {
    let files: Vec<Option<&[u8]>> = vec![
        None,
        Some(b""),
        Some(b"\n\n"),
        Some(b"[other]\nx = 1\n"),
        Some(b"[settings]\n"),
        Some(b"[settings]\napi_url = wrong\n[other]\n"),
        Some(b"api_key = stray\n[SETTINGS]\napi_key = old \n# note\n\n[other]\nbroken here"),
    ];
    for file in files {
        let (mut run, mut action) = Reconciler::new().step(Event::Loaded(file.map(|f| f.to_vec())));
        if let Action::Validate { .. } = action {
            let (next, next_action) = run.step(Event::Outcome(ValidationOutcome::Rejected));
            run = next;
            action = next_action;
        }
        assert!(matches!(action, Action::ObtainCredential { .. }));
        let (run, _) = run.step(Event::Credential(b"KEY-1".to_vec()));
        let (run, action) = run.step(Event::Outcome(ValidationOutcome::Accepted));
        let written = match action {
            Action::Finish { write: Some(bytes), exit_code: 0 } => bytes,
            other => panic!("no write: {:?}", other),
        };
        assert_eq!(run.document().serialize(), written);
        let again = hackatime_setup::document::ConfigDocument::parse(&written);
        assert_eq!(again.first_malformed(b"settings"), None);
        assert_eq!(again.get(b"settings", b"api_url"), Lookup::Value(URL.to_vec()));
        assert_eq!(again.get(b"settings", b"api_key"), Lookup::Value(b"KEY-1".to_vec()));
        let (rerun, action) = Reconciler::new().step(Event::Loaded(Some(written)));
        assert_eq!(action, Action::Validate { credential: b"KEY-1".to_vec() });
        let (_, action) = rerun.step(Event::Outcome(ValidationOutcome::Accepted));
        assert_eq!(action, Action::Finish { write: None, exit_code: 0 });
    }
}
