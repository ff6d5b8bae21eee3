use hackatime_setup::installer::{
    advance, classify_listing, classify_tool, InstallAction, InstallEvent, InstallPhase,
    InstallReport, ProbeResult,
};

fn run(events: &[InstallEvent]) -> (InstallPhase, Vec<InstallAction>) {
    let mut phase = InstallPhase::Probing;
    let mut actions = Vec::new();
    for event in events {
        let (next, action) = advance(phase, *event);
        phase = next;
        actions.push(action);
    }
    (phase, actions)
}

fn installs(actions: &[InstallAction]) -> usize {
    actions.iter().filter(|a| **a == InstallAction::Install).count()
}

#[test]
fn absent_target_is_installed_after_consent() {
    let (phase, actions) = run(&[
        InstallEvent::Probed(ProbeResult::Absent),
        InstallEvent::Consent(true),
        InstallEvent::Finished(true),
    ]);
    assert_eq!(phase, InstallPhase::Done(InstallReport::Installed));
    assert_eq!(
        actions,
        vec![
            InstallAction::AskConsent,
            InstallAction::Install,
            InstallAction::Report(InstallReport::Installed)
        ]
    );
}

#[test]
fn failed_install_is_reported() {
    let (phase, actions) = run(&[
        InstallEvent::Probed(ProbeResult::Absent),
        InstallEvent::Consent(true),
        InstallEvent::Finished(false),
    ]);
    assert_eq!(phase, InstallPhase::Done(InstallReport::Failed));
    assert_eq!(actions[2], InstallAction::Report(InstallReport::Failed));
    assert_eq!(installs(&actions), 1);
}

#[test]
fn declined_target_is_not_installed() {
    let (phase, actions) = run(&[
        InstallEvent::Probed(ProbeResult::Absent),
        InstallEvent::Consent(false),
        InstallEvent::Consent(true),
        InstallEvent::Finished(true),
    ]);
    assert_eq!(phase, InstallPhase::Done(InstallReport::Declined));
    assert_eq!(installs(&actions), 0);
    assert_eq!(actions[1], InstallAction::Report(InstallReport::Declined));
}

#[test]
fn present_target_is_only_checked() {
    let (phase, actions) = run(&[
        InstallEvent::Probed(ProbeResult::Present),
        InstallEvent::Consent(true),
        InstallEvent::Finished(true),
    ]);
    assert_eq!(phase, InstallPhase::Done(InstallReport::AlreadyPresent));
    assert_eq!(actions[0], InstallAction::CheckDrift);
    assert_eq!(installs(&actions), 0);
}

#[test]
fn unavailable_probe_skips_the_target() {
    let (phase, actions) = run(&[
        InstallEvent::Probed(ProbeResult::ProbeUnavailable),
        InstallEvent::Consent(true),
    ]);
    assert_eq!(phase, InstallPhase::Done(InstallReport::Skipped));
    assert_eq!(actions[0], InstallAction::Report(InstallReport::Skipped));
    assert_eq!(installs(&actions), 0);
}

#[test]
fn second_run_after_an_install_installs_nothing() {
    let mut installed = false;
    let mut total = 0;
    for _ in 0..2 {
        let probe = classify_tool(installed);
        let (phase, actions) = run(&[
            InstallEvent::Probed(probe),
            InstallEvent::Consent(true),
            InstallEvent::Finished(true),
        ]);
        total += installs(&actions);
        if phase == InstallPhase::Done(InstallReport::Installed) {
            installed = true;
        }
    }
    assert!(installed);
    assert_eq!(total, 1);
}

#[test]
fn install_is_never_called_for_twice() {
    let all = [
        InstallEvent::Probed(ProbeResult::Present),
        InstallEvent::Probed(ProbeResult::Absent),
        InstallEvent::Probed(ProbeResult::ProbeUnavailable),
        InstallEvent::Consent(true),
        InstallEvent::Consent(false),
        InstallEvent::Finished(true),
        InstallEvent::Finished(false),
    ];
    for a in all {
        for b in all {
            for c in all {
                for d in all {
                    let (_, actions) = run(&[a, b, c, d]);
                    assert!(installs(&actions) <= 1);
                    if a != InstallEvent::Probed(ProbeResult::Absent)
                        && matches!(a, InstallEvent::Probed(_))
                    {
                        assert_eq!(installs(&actions), 0);
                    }
                }
            }
        }
    }
}

#[test]
fn events_out_of_turn_repeat_the_request() {
    assert_eq!(
        advance(InstallPhase::Probing, InstallEvent::Consent(true)),
        (InstallPhase::Probing, InstallAction::Probe)
    );
    assert_eq!(
        advance(InstallPhase::Confirming, InstallEvent::Finished(true)),
        (InstallPhase::Confirming, InstallAction::AskConsent)
    );
    assert_eq!(
        advance(InstallPhase::Installing, InstallEvent::Consent(true)),
        (InstallPhase::Installing, InstallAction::AwaitInstall)
    );
    assert_eq!(
        advance(InstallPhase::Done(InstallReport::Installed), InstallEvent::Consent(true)),
        (
            InstallPhase::Done(InstallReport::Installed),
            InstallAction::Report(InstallReport::Installed)
        )
    );
}

#[test]
fn listing_is_classified() {
    assert_eq!(classify_listing(None, b"x"), ProbeResult::ProbeUnavailable);
    assert_eq!(classify_listing(Some(b"a\nxyz\nb"), b"xyz"), ProbeResult::Present);
    assert_eq!(classify_listing(Some(b"a\nxy\nb"), b"xyz"), ProbeResult::Absent);
    assert_eq!(classify_listing(Some(b""), b"xyz"), ProbeResult::Absent);
    assert_eq!(classify_tool(true), ProbeResult::Present);
    assert_eq!(classify_tool(false), ProbeResult::Absent);
}
