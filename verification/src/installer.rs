//! Installing an integration at most once.
//!
//! Every target is probed before anything is done to it. Only a target
//! that the probe found absent, and that the user agreed to, is installed,
//! and then by a single action.

use crate::text::{contains, has};
use vstd::prelude::*;

verus! {

/// What a probe found.
#[derive(Clone, Copy, Debug, PartialEq, Eq, Structural)]
pub enum ProbeResult {
    /// The integration is there.
    Present,
    /// The integration is not there.
    Absent,
    /// There is nothing to ask: the host application itself is missing.
    ProbeUnavailable,
}

/// How the handling of a target ended.
#[derive(Clone, Copy, Debug, PartialEq, Eq, Structural)]
pub enum InstallReport {
    /// The host application is missing; nothing was done.
    Skipped,
    /// The integration was there already; nothing was done.
    AlreadyPresent,
    /// The user did not want it installed; nothing was done.
    Declined,
    /// The install action ran and succeeded.
    Installed,
    /// The install action ran and failed.
    Failed,
}

/// Where the handling of a target stands.
#[derive(Clone, Copy, Debug, PartialEq, Eq, Structural)]
pub enum InstallPhase {
    /// The probe has not reported yet.
    Probing,
    /// The target is absent and the user is being asked.
    Confirming,
    /// The install action is running.
    Installing,
    /// Finished.
    Done(InstallReport),
}

/// What happened outside.
#[derive(Clone, Copy, Debug, PartialEq, Eq, Structural)]
pub enum InstallEvent {
    /// The probe reported.
    Probed(ProbeResult),
    /// The user answered: `true` to install.
    Consent(bool),
    /// The install action ended: `true` on success.
    Finished(bool),
}

/// What to do next.
#[derive(Clone, Copy, Debug, PartialEq, Eq, Structural)]
pub enum InstallAction {
    /// Run the probe and report `Probed`.
    Probe,
    /// Ask the user whether to install and report `Consent`.
    AskConsent,
    /// Run the install action, once, and report `Finished`.
    Install,
    /// The install action is running: report `Finished` when it ends.
    AwaitInstall,
    /// Look whether something overrides the integration that is present,
    /// and tell the user; nothing is changed.
    CheckDrift,
    /// Tell the user how it ended.
    Report(InstallReport),
}

/// The phase after an event. An event that the phase does not wait for
/// changes nothing.
pub open spec fn next_phase(phase: InstallPhase, event: InstallEvent) -> InstallPhase {
    match (phase, event) {
        (InstallPhase::Probing, InstallEvent::Probed(ProbeResult::ProbeUnavailable)) => InstallPhase::Done(
            InstallReport::Skipped,
        ),
        (InstallPhase::Probing, InstallEvent::Probed(ProbeResult::Present)) => InstallPhase::Done(
            InstallReport::AlreadyPresent,
        ),
        (InstallPhase::Probing, InstallEvent::Probed(ProbeResult::Absent)) => InstallPhase::Confirming,
        (InstallPhase::Confirming, InstallEvent::Consent(true)) => InstallPhase::Installing,
        (InstallPhase::Confirming, InstallEvent::Consent(false)) => InstallPhase::Done(
            InstallReport::Declined,
        ),
        (InstallPhase::Installing, InstallEvent::Finished(true)) => InstallPhase::Done(
            InstallReport::Installed,
        ),
        (InstallPhase::Installing, InstallEvent::Finished(false)) => InstallPhase::Done(
            InstallReport::Failed,
        ),
        _ => phase,
    }
}

/// The action that an event calls for. The install action is called for
/// by the user's consent and by nothing else. An event that the phase does
/// not wait for calls for the request to be repeated; an install that is
/// running is waited for, never started again.
pub open spec fn action_for(phase: InstallPhase, event: InstallEvent) -> InstallAction {
    match (phase, event) {
        (InstallPhase::Probing, InstallEvent::Probed(ProbeResult::ProbeUnavailable)) => InstallAction::Report(
            InstallReport::Skipped,
        ),
        (InstallPhase::Probing, InstallEvent::Probed(ProbeResult::Present)) => InstallAction::CheckDrift,
        (InstallPhase::Probing, InstallEvent::Probed(ProbeResult::Absent)) => InstallAction::AskConsent,
        (InstallPhase::Probing, _) => InstallAction::Probe,
        (InstallPhase::Confirming, InstallEvent::Consent(true)) => InstallAction::Install,
        (InstallPhase::Confirming, InstallEvent::Consent(false)) => InstallAction::Report(
            InstallReport::Declined,
        ),
        (InstallPhase::Confirming, _) => InstallAction::AskConsent,
        (InstallPhase::Installing, InstallEvent::Finished(true)) => InstallAction::Report(
            InstallReport::Installed,
        ),
        (InstallPhase::Installing, InstallEvent::Finished(false)) => InstallAction::Report(
            InstallReport::Failed,
        ),
        (InstallPhase::Installing, _) => InstallAction::AwaitInstall,
        (InstallPhase::Done(report), _) => InstallAction::Report(report),
    }
}

/// Takes in what happened to a target and says what to do next.
pub fn advance(phase: InstallPhase, event: InstallEvent) -> (result: (InstallPhase, InstallAction))
    ensures
        result.0 == next_phase(phase, event),
        result.1 == action_for(phase, event),
{
    match phase {
        InstallPhase::Probing => match event {
            InstallEvent::Probed(ProbeResult::ProbeUnavailable) => (
                InstallPhase::Done(InstallReport::Skipped),
                InstallAction::Report(InstallReport::Skipped),
            ),
            InstallEvent::Probed(ProbeResult::Present) => (
                InstallPhase::Done(InstallReport::AlreadyPresent),
                InstallAction::CheckDrift,
            ),
            InstallEvent::Probed(ProbeResult::Absent) => (
                InstallPhase::Confirming,
                InstallAction::AskConsent,
            ),
            _ => (phase, InstallAction::Probe),
        },
        InstallPhase::Confirming => match event {
            InstallEvent::Consent(true) => (InstallPhase::Installing, InstallAction::Install),
            InstallEvent::Consent(false) => (
                InstallPhase::Done(InstallReport::Declined),
                InstallAction::Report(InstallReport::Declined),
            ),
            _ => (phase, InstallAction::AskConsent),
        },
        InstallPhase::Installing => match event {
            InstallEvent::Finished(true) => (
                InstallPhase::Done(InstallReport::Installed),
                InstallAction::Report(InstallReport::Installed),
            ),
            InstallEvent::Finished(false) => (
                InstallPhase::Done(InstallReport::Failed),
                InstallAction::Report(InstallReport::Failed),
            ),
            _ => (phase, InstallAction::AwaitInstall),
        },
        InstallPhase::Done(report) => (phase, InstallAction::Report(report)),
    }
}

/// What a probe that lists installed items found: nothing to ask where the
/// listing could not be had, present where the listing names the item.
pub open spec fn listing_result(listing: Option<Seq<u8>>, item: Seq<u8>) -> ProbeResult {
    match listing {
        None => ProbeResult::ProbeUnavailable,
        Some(text) => if contains(text, item) {
            ProbeResult::Present
        } else {
            ProbeResult::Absent
        },
    }
}

/// Classifies the output of a probe that lists installed items.
pub fn classify_listing(listing: Option<&[u8]>, item: &[u8]) -> (result: ProbeResult)
    ensures
        result == listing_result(
            match listing {
                Some(text) => Some(text@),
                None => None,
            },
            item@,
        ),
{
    match listing {
        None => ProbeResult::ProbeUnavailable,
        Some(text) => if has(text, item) {
            ProbeResult::Present
        } else {
            ProbeResult::Absent
        },
    }
}

/// What a probe that runs the tool itself found: present where it ran.
pub fn classify_tool(ran: bool) -> (result: ProbeResult)
    ensures
        result == if ran {
            ProbeResult::Present
        } else {
            ProbeResult::Absent
        },
{
    if ran {
        ProbeResult::Present
    } else {
        ProbeResult::Absent
    }
}

/// The phase after a sequence of events, starting from `phase`.
pub open spec fn phase_after(phase: InstallPhase, events: Seq<InstallEvent>) -> InstallPhase
    decreases events.len(),
{
    if events.len() == 0 {
        phase
    } else {
        next_phase(phase_after(phase, events.drop_last()), events.last())
    }
}

/// The action called for by event `k` of a sequence that starts from
/// `phase`.
pub open spec fn action_at(phase: InstallPhase, events: Seq<InstallEvent>, k: int) -> InstallAction {
    action_for(phase_after(phase, events.take(k)), events[k])
}

/// How many of the first `n` events of a sequence call for the install
/// action.
pub open spec fn installs(phase: InstallPhase, events: Seq<InstallEvent>, n: int) -> nat
    decreases n,
{
    if n <= 0 {
        0
    } else {
        installs(phase, events, n - 1) + if action_at(phase, events, n - 1) is Install {
            1nat
        } else {
            0nat
        }
    }
}

/// Among the first `n` events, the probe reported the target absent.
pub open spec fn found_absent(events: Seq<InstallEvent>, n: int) -> bool {
    exists|i: int| 0 <= i < n && #[trigger] events[i] == InstallEvent::Probed(ProbeResult::Absent)
}

/// Among the first `n` events, the probe reported the target absent and
/// the user later agreed to the install.
pub open spec fn agreed_after_absent(events: Seq<InstallEvent>, n: int) -> bool {
    exists|i: int, k: int|
        0 <= i < k < n && #[trigger] events[i] == InstallEvent::Probed(ProbeResult::Absent)
            && #[trigger] events[k] == InstallEvent::Consent(true)
}

/// What holds of the first `n` events of any sequence.
spec fn budget(events: Seq<InstallEvent>, n: int) -> bool {
    let phase = phase_after(InstallPhase::Probing, events.take(n));
    let count = installs(InstallPhase::Probing, events, n);
    &&& phase is Probing ==> count == 0
    &&& phase is Confirming ==> count == 0 && found_absent(events, n)
    &&& phase is Installing ==> count == 1 && agreed_after_absent(events, n)
    &&& phase is Done ==> count <= 1 && (count == 1 ==> agreed_after_absent(events, n))
}

/// The budget holds of every prefix of every sequence of events.
proof fn lemma_budget(events: Seq<InstallEvent>, n: int)
    requires
        0 <= n <= events.len(),
    ensures
        budget(events, n),
    decreases n,
{
    if n > 0 {
        lemma_budget(events, n - 1);
        assert(events.take(n).drop_last() =~= events.take(n - 1));
        if found_absent(events, n - 1) {
            let i = choose|i: int|
                0 <= i < n - 1 && #[trigger] events[i] == InstallEvent::Probed(ProbeResult::Absent);
            assert(found_absent(events, n));
        }
        if agreed_after_absent(events, n - 1) {
            let (i, k) = choose|i: int, k: int|
                0 <= i < k < n - 1 && #[trigger] events[i] == InstallEvent::Probed(
                    ProbeResult::Absent,
                ) && #[trigger] events[k] == InstallEvent::Consent(true);
            assert(0 <= i < k < n && events[i] == InstallEvent::Probed(ProbeResult::Absent)
                && events[k] == InstallEvent::Consent(true));
        }
    }
}

/// Whatever is reported, in whatever order, the install action is called
/// for at most once while a target is handled, and only after the probe
/// found the target absent and the user then agreed.
pub proof fn installs_at_most_once(events: Seq<InstallEvent>)
    ensures
        installs(InstallPhase::Probing, events, events.len() as int) <= 1,
        installs(InstallPhase::Probing, events, events.len() as int) == 1 ==> agreed_after_absent(
            events,
            events.len() as int,
        ),
{
    lemma_budget(events, events.len() as int);
}

/// Once the first event reported the target present, or the probe
/// unavailable, the run is done and stays done.
proof fn lemma_settled_by_probe(events: Seq<InstallEvent>, n: int)
    requires
        0 < n <= events.len(),
        events[0] == InstallEvent::Probed(ProbeResult::Present) || events[0]
            == InstallEvent::Probed(ProbeResult::ProbeUnavailable),
    ensures
        phase_after(InstallPhase::Probing, events.take(n)) is Done,
        phase_after(InstallPhase::Probing, events.take(n)) == phase_after(
            InstallPhase::Probing,
            events.take(1),
        ),
        installs(InstallPhase::Probing, events, n) == 0,
    decreases n,
{
    assert(events.take(n).drop_last() =~= events.take(n - 1));
    if n == 1 {
        assert(installs(InstallPhase::Probing, events, 0) == 0);
    } else {
        lemma_settled_by_probe(events, n - 1);
    }
}

/// A target that the probe finds present, or cannot ask about, is never
/// installed, whatever is reported afterwards.
pub proof fn present_target_is_left_alone(events: Seq<InstallEvent>)
    requires
        events.len() > 0,
        events[0] == InstallEvent::Probed(ProbeResult::Present) || events[0]
            == InstallEvent::Probed(ProbeResult::ProbeUnavailable),
    ensures
        installs(InstallPhase::Probing, events, events.len() as int) == 0,
        forall|k: int|
            0 <= k < events.len() ==> !(#[trigger] action_at(InstallPhase::Probing, events, k) is Install),
{
    lemma_settled_by_probe(events, events.len() as int);
    assert forall|k: int| 0 <= k < events.len() implies !(#[trigger] action_at(
        InstallPhase::Probing,
        events,
        k,
    ) is Install) by {
        lemma_settled_by_probe(events, k + 1);
        if k > 0 {
            lemma_settled_by_probe(events, k);
        }
    }
}

/// What a truthful probe finds on the next run: an integration that was
/// installed is present; otherwise nothing has changed.
pub open spec fn probe_after(earlier: ProbeResult, report: InstallReport) -> ProbeResult {
    if report == InstallReport::Installed {
        ProbeResult::Present
    } else {
        earlier
    }
}

/// Running twice installs once: where the first run ended with the target
/// installed, a second run, which starts by probing what the first one
/// left, calls for no install action, whatever the user answers.
pub proof fn second_run_installs_nothing(
    first: Seq<InstallEvent>,
    earlier: ProbeResult,
    second: Seq<InstallEvent>,
)
    requires
        phase_after(InstallPhase::Probing, first) == InstallPhase::Done(InstallReport::Installed),
        second.len() > 0,
        second[0] == InstallEvent::Probed(probe_after(earlier, InstallReport::Installed)),
    ensures
        installs(InstallPhase::Probing, first, first.len() as int) == 1,
        installs(InstallPhase::Probing, second, second.len() as int) == 0,
{
    present_target_is_left_alone(second);
    lemma_installed_means_one(first, first.len() as int);
    assert(first.take(first.len() as int) =~= first);
}

/// A run that ended with the target installed called for the install
/// action exactly once.
proof fn lemma_installed_means_one(events: Seq<InstallEvent>, n: int)
    requires
        0 <= n <= events.len(),
    ensures
        ({
            let phase = phase_after(InstallPhase::Probing, events.take(n));
            let count = installs(InstallPhase::Probing, events, n);
            &&& phase is Probing || phase is Confirming ==> count == 0
            &&& phase is Installing ==> count == 1
            &&& phase == InstallPhase::Done(InstallReport::Installed) || phase == InstallPhase::Done(
                InstallReport::Failed,
            ) ==> count == 1
        }),
    decreases n,
{
    if n > 0 {
        lemma_installed_means_one(events, n - 1);
        assert(events.take(n).drop_last() =~= events.take(n - 1));
    }
}

} // verus!
