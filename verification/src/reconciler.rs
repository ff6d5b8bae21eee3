//! Bringing the configuration file into a state the client can use.
//!
//! The reconciler is a state machine. It is handed what happened (the file
//! was read, the user answered, the service replied) and says what to do
//! next. It never reads, asks, sends or writes itself.

use crate::defaults::{
    credential_key, credential_key_bytes, endpoint, endpoint_bytes, minimal_document,
    settings_section, settings_section_bytes, url_key, url_key_bytes,
};
use crate::defaults::{lemma_defaults, minimal_document_is_sound};
use crate::document::{
    after_store, ConfigDocument, DocumentView, first_malformed, Found, get_after_store,
    header_line, is_plain_value, lemma_last_holding, lemma_malformed_from, lemma_opened, line_kind,
    lookup, opened, parsed, pending, plain_value, position, serialize_then_parse, serialized,
    setting_line, setting_value, store_keeps_other_lines, store_keeps_other_settings, value_of,
};
use crate::text::{
    count_of, lemma_count_none, lemma_split_lines, no_byte, single_lines, split_lines, LINE_FEED,
};
use crate::validator::{outcome_of, ValidationOutcome};
use vstd::prelude::*;
use vstd::slice::slice_to_vec;

verus! {

/// Why a run was given up.
#[derive(Clone, Copy, Debug, PartialEq, Eq, Structural)]
pub enum AbortCause {
    /// The file holds a malformed line and the user would not have it
    /// replaced.
    Declined,
    /// The service failed while a credential was being validated.
    ServiceFailure,
}

/// Where a run stands.
#[derive(Debug, PartialEq, Eq)]
pub enum Phase {
    /// Nothing has been read yet.
    Start,
    /// The file holds a malformed settings line; the user has to choose
    /// between replacing the whole file and giving up.
    Deciding { line: usize, text: Vec<u8> },
    /// A credential is wanted. `rejected` is the one that just failed:
    /// the service rejected it, or the file cannot hold it.
    NeedsCredential { rejected: Option<Vec<u8>> },
    /// A credential is with the service.
    Validating { credential: Vec<u8> },
    /// Done: this credential was accepted and stored. The document names
    /// the right endpoint and this credential in its settings section.
    Ready { credential: Vec<u8> },
    /// Given up.
    Aborted { cause: AbortCause },
}

/// What happened outside.
#[derive(Debug, PartialEq, Eq)]
pub enum Event {
    /// The file was looked for: its bytes, or `None` where there is none.
    Loaded(Option<Vec<u8>>),
    /// The user chose: `true` to replace the whole file, `false` to give up.
    Choice(bool),
    /// A credential was obtained.
    Credential(Vec<u8>),
    /// The service answered.
    Outcome(ValidationOutcome),
}

/// What to do next.
#[derive(Debug, PartialEq, Eq)]
pub enum Action {
    /// Look for the file and report `Loaded`.
    Load,
    /// Show the malformed line, ask whether to replace the whole file and
    /// report `Choice`.
    AskReplace { line: usize, text: Vec<u8> },
    /// Obtain a credential and report `Credential`. Where `rejected` names
    /// one, tell the user that it was refused and ask anew.
    ObtainCredential { rejected: Option<Vec<u8>> },
    /// Send the credential to the service and report `Outcome`.
    Validate { credential: Vec<u8> },
    /// Stop: write `write` to the file where it is given, then leave with
    /// `exit_code`.
    Finish { write: Option<Vec<u8>>, exit_code: u8 },
}

/// The view of an optional byte string.
pub open spec fn opt_view(o: Option<Vec<u8>>) -> Option<Seq<u8>> {
    match o {
        Some(v) => Some(v@),
        None => None,
    }
}

/// A phase as contracts see it.
pub enum PhaseView {
    Start,
    Deciding { line: int, text: Seq<u8> },
    NeedsCredential { rejected: Option<Seq<u8>> },
    Validating { credential: Seq<u8> },
    Ready { credential: Seq<u8> },
    Aborted { cause: AbortCause },
}

/// An event as contracts see it.
pub enum EventView {
    Loaded(Option<Seq<u8>>),
    Choice(bool),
    Credential(Seq<u8>),
    Outcome(ValidationOutcome),
}

/// An action as contracts see it.
pub enum ActionView {
    Load,
    AskReplace { line: int, text: Seq<u8> },
    ObtainCredential { rejected: Option<Seq<u8>> },
    Validate { credential: Seq<u8> },
    Finish { write: Option<Seq<u8>>, exit_code: u8 },
}

impl View for Phase {
    type V = PhaseView;

    open spec fn view(&self) -> PhaseView {
        match self {
            Phase::Start => PhaseView::Start,
            Phase::Deciding { line, text } => PhaseView::Deciding { line: *line as int, text: text@ },
            Phase::NeedsCredential { rejected } => PhaseView::NeedsCredential {
                rejected: opt_view(*rejected),
            },
            Phase::Validating { credential } => PhaseView::Validating { credential: credential@ },
            Phase::Ready { credential } => PhaseView::Ready { credential: credential@ },
            Phase::Aborted { cause } => PhaseView::Aborted { cause: *cause },
        }
    }
}

impl View for Event {
    type V = EventView;

    open spec fn view(&self) -> EventView {
        match self {
            Event::Loaded(bytes) => EventView::Loaded(opt_view(*bytes)),
            Event::Choice(replace) => EventView::Choice(*replace),
            Event::Credential(credential) => EventView::Credential(credential@),
            Event::Outcome(outcome) => EventView::Outcome(*outcome),
        }
    }
}

impl View for Action {
    type V = ActionView;

    open spec fn view(&self) -> ActionView {
        match self {
            Action::Load => ActionView::Load,
            Action::AskReplace { line, text } => ActionView::AskReplace {
                line: *line as int,
                text: text@,
            },
            Action::ObtainCredential { rejected } => ActionView::ObtainCredential {
                rejected: opt_view(*rejected),
            },
            Action::Validate { credential } => ActionView::Validate { credential: credential@ },
            Action::Finish { write, exit_code } => ActionView::Finish {
                write: opt_view(*write),
                exit_code: *exit_code,
            },
        }
    }
}

/// A run as contracts see it: where it stands, and the document it works on.
pub struct ReconcilerView {
    pub phase: PhaseView,
    pub document: DocumentView,
}

/// A run before anything has happened.
pub open spec fn initial() -> ReconcilerView {
    ReconcilerView { phase: PhaseView::Start, document: minimal_document() }
}

/// A run that starts a new file: the document is the minimal one and a
/// credential is wanted.
pub open spec fn fresh() -> ReconcilerView {
    ReconcilerView {
        phase: PhaseView::NeedsCredential { rejected: None },
        document: minimal_document(),
    }
}

/// Where a run stands once the file has been looked for. A missing file
/// starts a new one. A malformed settings line stops everything until the
/// user has chosen; the document is left as parsed. Otherwise the endpoint
/// is put right without asking, and the credential found in the file, if
/// any, goes to the service. An endpoint that has to be added is added
/// inside the settings section, which is opened at the end of the
/// document where it is not open there.
pub open spec fn loaded(bytes: Option<Seq<u8>>) -> ReconcilerView {
    match bytes {
        None => fresh(),
        Some(b) => {
            let doc = parsed(b);
            match first_malformed(doc.lines, settings_section()) {
                Some(i) => ReconcilerView {
                    phase: PhaseView::Deciding { line: i, text: doc.lines[i] },
                    document: doc,
                },
                None => {
                    let healed = after_store(doc, settings_section(), url_key(), endpoint());
                    match position(healed.lines, settings_section(), credential_key()) {
                        Some(i) => ReconcilerView {
                            phase: PhaseView::Validating {
                                credential: setting_value(healed.lines[i]),
                            },
                            document: healed,
                        },
                        None => ReconcilerView {
                            phase: PhaseView::NeedsCredential { rejected: None },
                            document: healed,
                        },
                    }
                },
            }
        },
    }
}

/// A credential that the file can hold: written as a value it reads back
/// as it is, and it does not break the line. It has no `=`, no NUL byte, no
/// line feed and no whitespace at either end.
pub open spec fn storable(credential: Seq<u8>) -> bool {
    plain_value(credential) && no_byte(credential, LINE_FEED)
}

/// The state after an event. An event that the phase does not wait for
/// changes nothing. A credential that the file cannot hold is refused on
/// the spot, without troubling the service, and another one is asked for.
pub open spec fn next_state(s: ReconcilerView, e: EventView) -> ReconcilerView {
    match (s.phase, e) {
        (PhaseView::Start, EventView::Loaded(bytes)) => loaded(bytes),
        (PhaseView::Deciding { .. }, EventView::Choice(replace)) => if replace {
            fresh()
        } else {
            ReconcilerView { phase: PhaseView::Aborted { cause: AbortCause::Declined }, ..s }
        },
        (PhaseView::NeedsCredential { .. }, EventView::Credential(credential)) => if storable(
            credential,
        ) {
            ReconcilerView { phase: PhaseView::Validating { credential }, ..s }
        } else {
            ReconcilerView { phase: PhaseView::NeedsCredential { rejected: Some(credential) }, ..s }
        },
        (PhaseView::Validating { credential }, EventView::Outcome(outcome)) => match outcome {
            ValidationOutcome::Accepted => ReconcilerView {
                phase: PhaseView::Ready { credential },
                document: after_store(s.document, settings_section(), credential_key(), credential),
            },
            ValidationOutcome::Rejected => ReconcilerView {
                phase: PhaseView::NeedsCredential { rejected: Some(credential) },
                ..s
            },
            ValidationOutcome::ServiceError => ReconcilerView {
                phase: PhaseView::Aborted { cause: AbortCause::ServiceFailure },
                ..s
            },
        },
        _ => s,
    }
}

/// What a phase waits for. A finished run asks for nothing more: it only
/// repeats its exit code, 0 when ready and 1 when aborted.
pub open spec fn awaited(s: ReconcilerView) -> ActionView {
    match s.phase {
        PhaseView::Start => ActionView::Load,
        PhaseView::Deciding { line, text } => ActionView::AskReplace { line, text },
        PhaseView::NeedsCredential { rejected } => ActionView::ObtainCredential { rejected },
        PhaseView::Validating { credential } => ActionView::Validate { credential },
        PhaseView::Ready { .. } => ActionView::Finish { write: None, exit_code: 0 },
        PhaseView::Aborted { .. } => ActionView::Finish { write: None, exit_code: 1 },
    }
}

/// The event is the acceptance that a validating run waits for.
pub open spec fn accepts(s: ReconcilerView, e: EventView) -> bool {
    s.phase is Validating && e == EventView::Outcome(ValidationOutcome::Accepted)
}

/// The action after an event. The one write of a run comes with the
/// acceptance of a credential, and only where the document needs it.
pub open spec fn next_action(s: ReconcilerView, e: EventView) -> ActionView {
    if accepts(s, e) {
        ActionView::Finish { write: pending(next_state(s, e).document), exit_code: 0 }
    } else {
        awaited(next_state(s, e))
    }
}

/// Where a credential comes from.
#[derive(Debug, PartialEq, Eq)]
pub enum CredentialSource {
    /// The override from the environment, with its value.
    Override(Vec<u8>),
    /// The user, at the prompt.
    Prompt,
}

/// A source as contracts see it.
pub enum CredentialSourceView {
    Override(Seq<u8>),
    Prompt,
}

impl View for CredentialSource {
    type V = CredentialSourceView;

    open spec fn view(&self) -> CredentialSourceView {
        match self {
            CredentialSource::Override(value) => CredentialSourceView::Override(value@),
            CredentialSource::Prompt => CredentialSourceView::Prompt,
        }
    }
}

/// The source of the next credential. The override from the environment
/// comes first, but only for the first credential of a run: once a
/// credential was rejected the user is asked, so that an override the
/// service refuses is not offered over and over.
pub open spec fn source_of(rejected: Option<Seq<u8>>, override_value: Option<Seq<u8>>) -> CredentialSourceView {
    match (rejected, override_value) {
        (None, Some(value)) => CredentialSourceView::Override(value),
        _ => CredentialSourceView::Prompt,
    }
}

/// Picks the source of the next credential.
pub fn credential_source(rejected: &Option<Vec<u8>>, override_value: Option<Vec<u8>>) -> (source:
    CredentialSource)
    ensures
        source@ == source_of(opt_view(*rejected), opt_view(override_value)),
{
    match (rejected, override_value) {
        (None, Some(value)) => CredentialSource::Override(value),
        _ => CredentialSource::Prompt,
    }
}

/// One run of the reconciler.
pub struct Reconciler {
    phase: Phase,
    document: ConfigDocument,
}

impl View for Reconciler {
    type V = ReconcilerView;

    closed spec fn view(&self) -> ReconcilerView {
        ReconcilerView { phase: self.phase@, document: self.document@ }
    }
}

/// Whether the file can hold a credential.
pub fn is_storable(credential: &[u8]) -> (yes: bool)
    ensures
        yes == storable(credential@),
{
    proof {
        lemma_count_none(credential@, LINE_FEED);
    }
    is_plain_value(credential) && count_of(credential, LINE_FEED) == 0
}

/// A copy of an optional byte string.
fn copy_opt(o: &Option<Vec<u8>>) -> (out: Option<Vec<u8>>)
    ensures
        opt_view(out) == opt_view(*o),
{
    match o {
        Some(v) => Some(slice_to_vec(v.as_slice())),
        None => None,
    }
}

impl Reconciler {
    /// A run before anything has happened. Its first action is `Load`.
    pub fn new() -> (run: Reconciler)
        ensures
            run@ == initial(),
    {
        Reconciler { phase: Phase::Start, document: ConfigDocument::minimal() }
    }

    /// The run that starts a new file.
    fn fresh() -> (run: Reconciler)
        ensures
            run@ == fresh(),
    {
        Reconciler {
            phase: Phase::NeedsCredential { rejected: None },
            document: ConfigDocument::minimal(),
        }
    }

    /// The run once the file has been looked for.
    fn loaded(bytes: Option<Vec<u8>>) -> (run: Reconciler)
        ensures
            run@ == loaded(opt_view(bytes)),
    {
        match bytes {
            None => Reconciler::fresh(),
            Some(b) => {
                let section = settings_section_bytes();
                let mut document = ConfigDocument::parse(b.as_slice());
                match document.first_malformed(section.as_slice()) {
                    Some(i) => {
                        let text = document.line(i);
                        Reconciler { phase: Phase::Deciding { line: i, text }, document }
                    },
                    None => {
                        document.store(
                            section.as_slice(),
                            url_key_bytes().as_slice(),
                            endpoint_bytes().as_slice(),
                        );
                        match document.locate(section.as_slice(), credential_key_bytes().as_slice()) {
                            Some(i) => {
                                let line = document.line(i);
                                let credential = value_of(line.as_slice());
                                Reconciler { phase: Phase::Validating { credential }, document }
                            },
                            None => Reconciler {
                                phase: Phase::NeedsCredential { rejected: None },
                                document,
                            },
                        }
                    },
                }
            },
        }
    }

    /// What the run waits for.
    pub fn awaited(&self) -> (action: Action)
        ensures
            action@ == awaited(self@),
    {
        match &self.phase {
            Phase::Start => Action::Load,
            Phase::Deciding { line, text } => Action::AskReplace {
                line: *line,
                text: slice_to_vec(text.as_slice()),
            },
            Phase::NeedsCredential { rejected } => Action::ObtainCredential {
                rejected: copy_opt(rejected),
            },
            Phase::Validating { credential } => Action::Validate {
                credential: slice_to_vec(credential.as_slice()),
            },
            Phase::Ready { .. } => Action::Finish { write: None, exit_code: 0 },
            Phase::Aborted { .. } => Action::Finish { write: None, exit_code: 1 },
        }
    }

    /// Takes in what happened and says what to do next.
    ///
    /// A run that is handed an event it does not wait for stays as it is
    /// and repeats its request. A credential that the file cannot hold, or
    /// that the service rejects, leads back to asking for one, as often as
    /// it takes; only an accepted credential, a service failure or the
    /// user's refusal ends the run.
    pub fn step(self, event: Event) -> (result: (Reconciler, Action))
        ensures
            result.0@ == next_state(self@, event@),
            result.1@ == next_action(self@, event@),
    {
        let Reconciler { phase, document } = self;
        match (phase, event) {
            (Phase::Start, Event::Loaded(bytes)) => {
                let run = Reconciler::loaded(bytes);
                let action = run.awaited();
                (run, action)
            },
            (Phase::Deciding { .. }, Event::Choice(true)) => {
                let run = Reconciler::fresh();
                let action = run.awaited();
                (run, action)
            },
            (Phase::Deciding { .. }, Event::Choice(false)) => {
                let run = Reconciler { phase: Phase::Aborted { cause: AbortCause::Declined }, document };
                (run, Action::Finish { write: None, exit_code: 1 })
            },
            (Phase::NeedsCredential { .. }, Event::Credential(credential)) => {
                let copy = slice_to_vec(credential.as_slice());
                if is_storable(credential.as_slice()) {
                    (
                        Reconciler { phase: Phase::Validating { credential }, document },
                        Action::Validate { credential: copy },
                    )
                } else {
                    (
                        Reconciler {
                            phase: Phase::NeedsCredential { rejected: Some(credential) },
                            document,
                        },
                        Action::ObtainCredential { rejected: Some(copy) },
                    )
                }
            },
            (Phase::Validating { credential }, Event::Outcome(ValidationOutcome::Accepted)) => {
                let mut document = document;
                document.store(
                    settings_section_bytes().as_slice(),
                    credential_key_bytes().as_slice(),
                    credential.as_slice(),
                );
                let write = document.pending_write();
                (
                    Reconciler { phase: Phase::Ready { credential }, document },
                    Action::Finish { write, exit_code: 0 },
                )
            },
            (Phase::Validating { credential }, Event::Outcome(ValidationOutcome::Rejected)) => {
                let rejected = Some(slice_to_vec(credential.as_slice()));
                (
                    Reconciler { phase: Phase::NeedsCredential { rejected: Some(credential) }, document },
                    Action::ObtainCredential { rejected },
                )
            },
            (Phase::Validating { .. }, Event::Outcome(ValidationOutcome::ServiceError)) => {
                let run = Reconciler {
                    phase: Phase::Aborted { cause: AbortCause::ServiceFailure },
                    document,
                };
                (run, Action::Finish { write: None, exit_code: 1 })
            },
            (phase, _) => {
                let run = Reconciler { phase, document };
                let action = run.awaited();
                (run, action)
            },
        }
    }

    /// Whether the run has ended, ready or aborted.
    pub fn is_finished(&self) -> (done: bool)
        ensures
            done == (self@.phase is Ready || self@.phase is Aborted),
    {
        match &self.phase {
            Phase::Ready { .. } => true,
            Phase::Aborted { .. } => true,
            _ => false,
        }
    }

    /// Where the run stands.
    pub fn phase(&self) -> (phase: &Phase)
        ensures
            phase@ == self@.phase,
    {
        &self.phase
    }

    /// The document the run works on.
    pub fn document(&self) -> (document: &ConfigDocument)
        ensures
            document@ == self@.document,
    {
        &self.document
    }
}

/// The state after each of `credentials` in turn was offered and rejected.
pub open spec fn after_rejections(s: ReconcilerView, credentials: Seq<Seq<u8>>) -> ReconcilerView
    decreases credentials.len(),
{
    if credentials.len() == 0 {
        s
    } else {
        next_state(
            next_state(
                after_rejections(s, credentials.drop_last()),
                EventView::Credential(credentials.last()),
            ),
            EventView::Outcome(ValidationOutcome::Rejected),
        )
    }
}

/// A file whose settings section is well formed and holds the right
/// endpoint and a credential that the service accepts is left alone: the
/// credential found goes to the service, the document stays as parsed, and
/// the run ends ready without a write.
pub proof fn valid_file_is_not_written(bytes: Seq<u8>, credential: Seq<u8>)
    requires
        lookup(split_lines(bytes), settings_section(), url_key()) == Found::Value(endpoint()),
        lookup(split_lines(bytes), settings_section(), credential_key()) == Found::Value(
            credential,
        ),
    ensures
        ({
            let load = EventView::Loaded(Some(bytes));
            let accept = EventView::Outcome(ValidationOutcome::Accepted);
            let checked = next_state(initial(), load);
            &&& next_action(initial(), load) == ActionView::Validate { credential }
            &&& checked.document == parsed(bytes)
            &&& next_state(checked, accept) == ReconcilerView {
                phase: PhaseView::Ready { credential },
                document: parsed(bytes),
            }
            &&& next_action(checked, accept) == ActionView::Finish { write: None, exit_code: 0 }
        }),
{
}

/// A file whose settings section is well formed but names no endpoint
/// gets the endpoint appended as its last line, after the header of the
/// settings section where that section is not open at the end. Every line
/// that was there stays, in place and byte for byte; the endpoint is then
/// found in the settings section; and the document is dirty, so that it is
/// written once a credential is accepted.
pub proof fn missing_endpoint_is_appended(bytes: Seq<u8>)
    requires
        lookup(split_lines(bytes), settings_section(), url_key()) == Found::Absent,
    ensures
        ({
            let checked = next_state(initial(), EventView::Loaded(Some(bytes)));
            &&& checked.document.lines == opened(parsed(bytes), settings_section()).lines.push(
                setting_line(url_key(), endpoint()),
            )
            &&& checked.document.lines.last() == setting_line(url_key(), endpoint())
            &&& checked.document.dirty
            &&& forall|j: int|
                0 <= j < split_lines(bytes).len() ==> checked.document.lines[j] == split_lines(
                    bytes,
                )[j]
            &&& lookup(checked.document.lines, settings_section(), url_key()) == Found::Value(
                endpoint(),
            )
        }),
{
    lemma_defaults();
    lemma_opened(parsed(bytes), settings_section(), url_key());
    get_after_store(parsed(bytes), settings_section(), url_key(), endpoint());
}

/// A document that is dirty or newly created when a credential is
/// accepted is written, whole, with the credential set.
pub proof fn changed_document_is_written(s: ReconcilerView)
    requires
        s.phase is Validating,
        s.document.dirty || s.document.created,
    ensures
        ({
            let accept = EventView::Outcome(ValidationOutcome::Accepted);
            next_action(s, accept) == ActionView::Finish {
                write: Some(serialized(next_state(s, accept).document)),
                exit_code: 0,
            }
        }),
{
    let credential = s.phase->Validating_credential;
    store_keeps_other_lines(s.document, settings_section(), credential_key(), credential);
}

/// A malformed line in the settings section is found and never mended.
/// The document stays exactly as parsed and the user is shown the first
/// such line. Refusing ends the run with exit code 1 and no write;
/// agreeing starts over with a new file.
pub proof fn malformed_line_forces_a_choice(bytes: Seq<u8>, line: int)
    requires
        first_malformed(split_lines(bytes), settings_section()) == Some(line),
    ensures
        ({
            let load = EventView::Loaded(Some(bytes));
            let found = next_state(initial(), load);
            let text = split_lines(bytes)[line];
            &&& line_kind(text) is Malformed
            &&& found == ReconcilerView {
                phase: PhaseView::Deciding { line, text },
                document: parsed(bytes),
            }
            &&& next_action(initial(), load) == ActionView::AskReplace { line, text }
            &&& next_state(found, EventView::Choice(false)) == ReconcilerView {
                phase: PhaseView::Aborted { cause: AbortCause::Declined },
                document: parsed(bytes),
            }
            &&& next_action(found, EventView::Choice(false)) == ActionView::Finish {
                write: None,
                exit_code: 1,
            }
            &&& next_state(found, EventView::Choice(true)) == fresh()
            &&& next_action(found, EventView::Choice(true)) == ActionView::ObtainCredential {
                rejected: None,
            }
        }),
{
    lemma_malformed_from(split_lines(bytes), settings_section(), 0);
}

/// Rejected credentials leave no trace: after any number of them the run
/// waits for a credential again and the document is as it was.
pub proof fn rejections_change_nothing(s: ReconcilerView, rejected: Seq<Seq<u8>>)
    requires
        s.phase is NeedsCredential,
    ensures
        after_rejections(s, rejected).phase is NeedsCredential,
        after_rejections(s, rejected).document == s.document,
        rejected.len() > 0 ==> after_rejections(s, rejected).phase == (PhaseView::NeedsCredential {
            rejected: Some(rejected.last()),
        }),
    decreases rejected.len(),
{
    if rejected.len() > 0 {
        rejections_change_nothing(s, rejected.drop_last());
    }
}

/// However many credentials were rejected before, the one that is
/// accepted is the one the run ends with and the one stored in the
/// document;
/// what is written, if anything, is that document. A status of 401 is a
/// rejection and a status of 200 an acceptance.
pub proof fn last_credential_wins(s: ReconcilerView, rejected: Seq<Seq<u8>>, accepted: Seq<u8>)
    requires
        s.phase is NeedsCredential,
        storable(accepted),
    ensures
        outcome_of(401) == ValidationOutcome::Rejected,
        outcome_of(200) == ValidationOutcome::Accepted,
        ({
            let accept = EventView::Outcome(ValidationOutcome::Accepted);
            let offered = next_state(
                after_rejections(s, rejected),
                EventView::Credential(accepted),
            );
            let done = next_state(offered, accept);
            &&& done.phase == PhaseView::Ready { credential: accepted }
            &&& done.document == after_store(
                s.document,
                settings_section(),
                credential_key(),
                accepted,
            )
            &&& next_action(offered, accept) == ActionView::Finish {
                write: pending(done.document),
                exit_code: 0,
            }
        }),
{
    rejections_change_nothing(s, rejected);
}

/// The accepted credential is what the document then gives for the
/// credential setting, and what the written file gives when it is parsed
/// again, whatever sections the file has. This holds for a plain
/// credential without a line feed and a document without a malformed
/// settings line and without a line feed inside a line.
pub proof fn accepted_credential_is_stored(doc: DocumentView, accepted: Seq<u8>)
    requires
        plain_value(accepted),
        no_byte(accepted, LINE_FEED),
        single_lines(doc.lines),
        first_malformed(doc.lines, settings_section()) is None,
    ensures
        ({
            let stored = after_store(doc, settings_section(), credential_key(), accepted);
            &&& lookup(stored.lines, settings_section(), credential_key()) == Found::Value(accepted)
            &&& lookup(split_lines(serialized(stored)), settings_section(), credential_key())
                == Found::Value(accepted)
        }),
{
    lemma_defaults();
    let section = settings_section();
    let stored = after_store(doc, section, credential_key(), accepted);
    get_after_store(doc, section, credential_key(), accepted);
    lemma_opened(doc, section, credential_key());
    let open = opened(doc, section);
    lemma_last_holding(doc.lines, section, credential_key(), doc.lines.len() as int);
    lemma_last_holding(open.lines, section, credential_key(), open.lines.len() as int);
    assert(no_byte(setting_line(credential_key(), accepted), LINE_FEED));
    let header = header_line(section);
    assert forall|i: int| 0 <= i < header.len() implies header[i] != LINE_FEED by {
        if 0 < i < header.len() - 1 {
            assert(header[i] == section[i - 1]);
        }
    }
    assert forall|i: int| 0 <= i < open.lines.len() implies no_byte(
        #[trigger] open.lines[i],
        LINE_FEED,
    ) by {
        if i < doc.lines.len() {
            assert(open.lines[i] == doc.lines[i]);
        }
    }
    assert forall|i: int| 0 <= i < stored.lines.len() implies no_byte(
        #[trigger] stored.lines[i],
        LINE_FEED,
    ) by {
        if i < open.lines.len() && stored.lines[i] != setting_line(credential_key(), accepted) {
            assert(stored.lines[i] == open.lines[i]);
        }
    }
    serialize_then_parse(stored);
}

/// A run ends for one of three reasons only: a credential was accepted,
/// the service failed during validation, or the user refused to have a
/// malformed file replaced. A rejected credential never ends it.
pub proof fn runs_end_for_three_reasons(s: ReconcilerView, e: EventView)
    requires
        !(s.phase is Ready),
        !(s.phase is Aborted),
    ensures
        next_state(s, e).phase is Ready <==> accepts(s, e),
        next_state(s, e).phase is Aborted <==> (s.phase is Validating && e == EventView::Outcome(
            ValidationOutcome::ServiceError,
        )) || (s.phase is Deciding && e == EventView::Choice(false)),
        s.phase is Validating && e == EventView::Outcome(ValidationOutcome::Rejected) ==> next_state(
            s,
            e,
        ).phase is NeedsCredential,
{
}

/// A run that has ended stays as it is and writes nothing more, whatever
/// it is handed.
pub proof fn finished_runs_stay_finished(s: ReconcilerView, e: EventView)
    requires
        s.phase is Ready || s.phase is Aborted,
    ensures
        next_state(s, e) == s,
        next_action(s, e) == (ActionView::Finish {
            write: None,
            exit_code: if s.phase is Ready {
                0u8
            } else {
                1u8
            },
        }),
{
}

/// Nothing is written unless a credential was just accepted: every other
/// step either asks for something or ends the run without a write.
pub proof fn only_acceptance_writes(s: ReconcilerView, e: EventView)
    requires
        !accepts(s, e),
    ensures
        next_action(s, e) matches ActionView::Finish { write, .. } ==> write is None,
{
}

/// A document that a credential can be stored in so that the file comes
/// out right: no malformed settings line, and the right endpoint.
pub open spec fn healthy(doc: DocumentView) -> bool {
    &&& first_malformed(doc.lines, settings_section()) is None
    &&& lookup(doc.lines, settings_section(), url_key()) == Found::Value(endpoint())
}

/// A document whose settings section is in order and holds `credential`.
pub open spec fn sound(doc: DocumentView, credential: Seq<u8>) -> bool {
    &&& first_malformed(doc.lines, settings_section()) is None
    &&& lookup(doc.lines, settings_section(), url_key()) == Found::Value(endpoint())
    &&& lookup(doc.lines, settings_section(), credential_key()) == Found::Value(credential)
}

/// The document that starts a new file is healthy.
pub proof fn fresh_document_is_healthy()
    ensures
        healthy(fresh().document),
{
    minimal_document_is_sound();
}

/// The document of any file without a malformed settings line is healthy
/// once the endpoint has been put right, whatever sections the file has
/// and even if it has none.
pub proof fn loaded_document_is_healthy(bytes: Seq<u8>)
    requires
        first_malformed(split_lines(bytes), settings_section()) is None,
    ensures
        healthy(loaded(Some(bytes)).document),
        !(loaded(Some(bytes)).phase is Deciding),
{
    lemma_defaults();
    let doc = parsed(bytes);
    get_after_store(doc, settings_section(), url_key(), endpoint());
}

/// Once a plain credential is accepted for a healthy document, the
/// document is sound: its settings section has no malformed line, names
/// the right endpoint and holds that credential.
pub proof fn accepted_run_leaves_sound_document(s: ReconcilerView, accepted: Seq<u8>)
    requires
        s.phase == (PhaseView::Validating { credential: accepted }),
        healthy(s.document),
        plain_value(accepted),
    ensures
        sound(
            next_state(s, EventView::Outcome(ValidationOutcome::Accepted)).document,
            accepted,
        ),
        next_state(s, EventView::Outcome(ValidationOutcome::Accepted)).phase == (PhaseView::Ready {
            credential: accepted,
        }),
{
    lemma_defaults();
    get_after_store(s.document, settings_section(), credential_key(), accepted);
    store_keeps_other_settings(
        s.document,
        settings_section(),
        credential_key(),
        accepted,
        url_key(),
    );
}

/// What holds of a run wherever it stands: while a credential is wanted
/// or with the service the document is healthy, and a credential that is
/// with the service either can be held by the file or is the one the file
/// holds already; a run that is ready has a sound document. The
/// document's lines hold no line feed, so that it is written as it stands.
pub open spec fn consistent(s: ReconcilerView) -> bool {
    &&& s.document.lines.len() >= 1
    &&& single_lines(s.document.lines)
    &&& match s.phase {
        PhaseView::NeedsCredential { .. } => healthy(s.document),
        PhaseView::Validating { credential } => healthy(s.document) && (storable(credential)
            || lookup(s.document.lines, settings_section(), credential_key()) == Found::Value(
            credential,
        )),
        PhaseView::Ready { credential } => sound(s.document, credential),
        _ => true,
    }
}

/// The state after a sequence of events.
pub open spec fn after_events(s: ReconcilerView, events: Seq<EventView>) -> ReconcilerView
    decreases events.len(),
{
    if events.len() == 0 {
        s
    } else {
        next_state(after_events(s, events.drop_last()), events.last())
    }
}

/// Storing a value without a line feed keeps the lines free of line
/// feeds.
proof fn lemma_store_keeps_single_lines(doc: DocumentView, key: Seq<u8>, value: Seq<u8>)
    requires
        single_lines(doc.lines),
        no_byte(key, LINE_FEED),
        no_byte(value, LINE_FEED),
    ensures
        single_lines(after_store(doc, settings_section(), key, value).lines),
        after_store(doc, settings_section(), key, value).lines.len() >= doc.lines.len(),
{
    lemma_defaults();
    let section = settings_section();
    let stored = after_store(doc, section, key, value);
    let open = opened(doc, section);
    lemma_opened(doc, section, key);
    lemma_last_holding(doc.lines, section, key, doc.lines.len() as int);
    lemma_last_holding(open.lines, section, key, open.lines.len() as int);
    assert(no_byte(setting_line(key, value), LINE_FEED));
    let header = header_line(section);
    assert forall|i: int| 0 <= i < header.len() implies header[i] != LINE_FEED by {
        if 0 < i < header.len() - 1 {
            assert(header[i] == section[i - 1]);
        }
    }
    assert forall|i: int| 0 <= i < open.lines.len() implies no_byte(
        #[trigger] open.lines[i],
        LINE_FEED,
    ) by {
        if i < doc.lines.len() {
            assert(open.lines[i] == doc.lines[i]);
        }
    }
    assert forall|i: int| 0 <= i < stored.lines.len() implies no_byte(
        #[trigger] stored.lines[i],
        LINE_FEED,
    ) by {
        if i < open.lines.len() && stored.lines[i] != setting_line(key, value) {
            assert(stored.lines[i] == open.lines[i]);
        }
    }
}

/// A run starts consistent.
pub proof fn new_run_is_consistent()
    ensures
        consistent(initial()),
{
    minimal_document_is_sound();
}

/// Whatever a consistent run is handed, it stays consistent.
pub proof fn steps_keep_runs_consistent(s: ReconcilerView, e: EventView)
    requires
        consistent(s),
    ensures
        consistent(next_state(s, e)),
{
    lemma_defaults();
    minimal_document_is_sound();
    let t = next_state(s, e);
    match (s.phase, e) {
        (PhaseView::Start, EventView::Loaded(Some(bytes))) => {
            lemma_split_lines(bytes);
            lemma_malformed_from(split_lines(bytes), settings_section(), 0);
            if first_malformed(split_lines(bytes), settings_section()) is None {
                loaded_document_is_healthy(bytes);
                lemma_store_keeps_single_lines(parsed(bytes), url_key(), endpoint());
                lemma_last_holding(
                    t.document.lines,
                    settings_section(),
                    credential_key(),
                    t.document.lines.len() as int,
                );
            }
        },
        (PhaseView::Validating { credential }, EventView::Outcome(ValidationOutcome::Accepted)) => {
            if storable(credential) {
                accepted_run_leaves_sound_document(s, credential);
                lemma_store_keeps_single_lines(s.document, credential_key(), credential);
            } else {
                lemma_last_holding(
                    s.document.lines,
                    settings_section(),
                    credential_key(),
                    s.document.lines.len() as int,
                );
            }
        },
        _ => {},
    }
}

/// Every run is consistent, whatever it is handed and in whatever order.
pub proof fn every_run_is_consistent(events: Seq<EventView>)
    ensures
        consistent(after_events(initial(), events)),
    decreases events.len(),
{
    if events.len() == 0 {
        new_run_is_consistent();
    } else {
        every_run_is_consistent(events.drop_last());
        steps_keep_runs_consistent(after_events(initial(), events.drop_last()), events.last());
    }
}

/// Every run that ends ready leaves a file in order, whatever file it
/// found and whatever it was handed on the way: its settings section has
/// no malformed line, names the right endpoint and holds the accepted
/// credential, and the same is read from the bytes that the document
/// serializes to, which are the bytes written.
pub proof fn ready_file_is_sound(events: Seq<EventView>, credential: Seq<u8>)
    requires
        after_events(initial(), events).phase == (PhaseView::Ready { credential }),
    ensures
        sound(after_events(initial(), events).document, credential),
        sound(parsed(serialized(after_events(initial(), events).document)), credential),
{
    every_run_is_consistent(events);
    serialize_then_parse(after_events(initial(), events).document);
}

} // verus!
