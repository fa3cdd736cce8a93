//! The update workflow as a state machine.
//!
//! The orchestrator holds the run's state and decides every step; it does
//! no I/O itself. The unverified shell around the library performs each
//! returned `Action` — a remote call, a file write, an editor run, a
//! prompt — and feeds the outcome back in as the next `Event`. The
//! sequencing rules of the workflow are stated over this machine:
//! `lemma_submit_only_after_fetch_and_edit` shows an update is never
//! submitted before both fetches and the editor step have succeeded.

use vstd::prelude::*;
use crate::codec::{decode, encode, is_ws, spec_decode, spec_encode};
use crate::errors::{cfn_of_codec, CfnError};
use crate::params::{
    normalize_parameters, normalize_spec, remote_view, to_remote, RawParameter, RawStack,
    RemoteParam,
};
use crate::status::{classify, classify_spec, StatusClass};
use crate::text::chars_of;

verus! {

// ---------------------------------------------------------------------------
// The interactive save prompt, re-modeled as a pure function of the line
// the operator typed.
// ---------------------------------------------------------------------------

/// What one line of operator input means for the save prompt.
#[derive(Debug, PartialEq, Eq, Structural, Clone, Copy)]
pub enum Answer {
    Yes,
    No,
    Retry,
}

/// The input with its leading whitespace removed.
pub open spec fn trim_front(s: Seq<char>) -> Seq<char>
    decreases s.len(),
{
    if s.len() > 0 && is_ws(s[0]) {
        trim_front(s.drop_first())
    } else {
        s
    }
}

/// The input with its trailing whitespace removed.
pub open spec fn trim_back(s: Seq<char>) -> Seq<char>
    decreases s.len(),
{
    if s.len() > 0 && is_ws(s.last()) {
        trim_back(s.drop_last())
    } else {
        s
    }
}

/// The input with whitespace removed from both ends.
pub open spec fn trim_spec(s: Seq<char>) -> Seq<char> {
    trim_back(trim_front(s))
}

/// Case-insensitive match of one character against a lower-case reference
/// character.
pub open spec fn eq_char_ci(a: char, b: char) -> bool {
    a == b || ('A' <= a && a <= 'Z' && (a as int) + 32 == (b as int))
}

/// Case-insensitive match against a lower-case reference word.
pub open spec fn seq_eq_ci(a: Seq<char>, b: Seq<char>) -> bool {
    a.len() == b.len() && forall|i: int| 0 <= i < a.len() ==> eq_char_ci(a[i], b[i])
}

/// What a typed line decides: `y`/`yes` in any case means yes, `n`/`no`
/// in any case or an empty line means no, anything else asks again.
pub open spec fn answer_spec(line: Seq<char>) -> Answer {
    let t = trim_spec(line);
    if seq_eq_ci(t, "y"@) || seq_eq_ci(t, "yes"@) {
        Answer::Yes
    } else if t.len() == 0 || seq_eq_ci(t, "n"@) || seq_eq_ci(t, "no"@) {
        Answer::No
    } else {
        Answer::Retry
    }
}

fn is_ws_exec(c: char) -> (r: bool)
    ensures
        r == is_ws(c),
{
    c == ' ' || c == '\n' || c == '\t' || c == '\r'
}

fn eq_char_ci_exec(a: char, b: char) -> (r: bool)
    ensures
        r == eq_char_ci(a, b),
{
    a == b || ('A' <= a && a <= 'Z' && (a as u32) + 32 == (b as u32))
}

fn eq_ci_range(v: &Vec<char>, lo: usize, hi: usize, word: &str) -> (r: bool)
    requires
        lo <= hi <= v@.len(),
    ensures
        r == seq_eq_ci(v@.subrange(lo as int, hi as int), word@),
{
    let cs = chars_of(word);
    let ghost t = v@.subrange(lo as int, hi as int);
    if hi - lo != cs.len() {
        assert(t.len() != cs@.len());
        return false;
    }
    let mut j: usize = 0;
    while j < cs.len()
        invariant
            0 <= j <= cs@.len(),
            lo <= hi <= v@.len(),
            hi - lo == cs@.len(),
            t == v@.subrange(lo as int, hi as int),
            cs@ == word@,
            forall|m: int| 0 <= m < j ==> eq_char_ci(t[m], cs@[m]),
        decreases cs@.len() - j,
    {
        if !eq_char_ci_exec(v[lo + j], cs[j]) {
            assert(t[j as int] == v@[lo + j]);
            assert(!eq_char_ci(t[j as int], cs@[j as int]));
            return false;
        }
        assert(t[j as int] == v@[lo + j]);
        j = j + 1;
    }
    true
}

/// Decide the save prompt from one typed line.
pub fn parse_save_answer(line: &str) -> (r: Answer)
    ensures
        r == answer_spec(line@),
{
    let v = chars_of(line);
    assert(v@.skip(0) =~= v@);
    let mut lo: usize = 0;
    while lo < v.len() && is_ws_exec(v[lo])
        invariant
            0 <= lo <= v@.len(),
            trim_front(v@) == trim_front(v@.skip(lo as int)),
        decreases v@.len() - lo,
    {
        proof {
            assert(v@.skip(lo as int)[0] == v@[lo as int]);
            assert(v@.skip(lo as int).drop_first() =~= v@.skip(lo + 1));
        }
        lo = lo + 1;
    }
    proof {
        if lo < v@.len() {
            assert(v@.skip(lo as int)[0] == v@[lo as int]);
        }
        assert(trim_front(v@) == v@.skip(lo as int));
    }
    let mut hi: usize = v.len();
    proof {
        assert(v@.subrange(lo as int, hi as int) =~= v@.skip(lo as int));
    }
    while hi > lo && is_ws_exec(v[hi - 1])
        invariant
            lo <= hi <= v@.len(),
            trim_front(v@) == v@.skip(lo as int),
            trim_back(v@.skip(lo as int)) == trim_back(v@.subrange(lo as int, hi as int)),
        decreases hi,
    {
        proof {
            let cur = v@.subrange(lo as int, hi as int);
            assert(cur.last() == v@[hi - 1]);
            assert(cur.drop_last() =~= v@.subrange(lo as int, hi - 1));
        }
        hi = hi - 1;
    }
    proof {
        let cur = v@.subrange(lo as int, hi as int);
        if hi > lo {
            assert(cur.last() == v@[hi - 1]);
        }
        assert(trim_back(cur) == cur);
        assert(trim_spec(v@) == v@.subrange(lo as int, hi as int));
    }
    if eq_ci_range(&v, lo, hi, "y") || eq_ci_range(&v, lo, hi, "yes") {
        Answer::Yes
    } else if hi == lo || eq_ci_range(&v, lo, hi, "n") || eq_ci_range(&v, lo, hi, "no") {
        Answer::No
    } else {
        Answer::Retry
    }
}

// ---------------------------------------------------------------------------
// The state machine.
// ---------------------------------------------------------------------------

/// Where the run stands. The phases follow the workflow in order; `Failed`
/// ends the run with its error, `Finished` ends it normally.
pub enum Phase {
    Idle,
    FetchingTemplate,
    FetchingParameters { template: String },
    Staging,
    Editing,
    ReadingBack,
    Submitting,
    Polling,
    SaveDecision,
    AwaitingAnswer,
    Persisting,
    Finished,
    Failed { error: CfnError },
}

/// What the shell reports back to the orchestrator.
pub enum Event {
    /// Begin the run.
    Start,
    /// The get-template call answered with this body, if any.
    TemplateFetched { body: Option<String> },
    /// The get-template call itself failed.
    TemplateFetchFailed { message: String },
    /// The describe-stacks call answered with these stack records.
    StacksDescribed { stacks: Vec<RawStack> },
    /// The describe-stacks call itself failed.
    DescribeFailed { message: String },
    /// Both artifacts were written to the scratch files.
    ArtifactsWritten,
    /// Writing an artifact failed.
    ArtifactWriteFailed { message: String },
    /// The editor ran on both files; `success` is whether both runs exited
    /// with code zero.
    EditorFinished { success: bool },
    /// The possibly edited scratch files were read back.
    ArtifactsRead { params_text: String, template: String },
    /// The update-stack call was accepted.
    UpdateAccepted,
    /// The update-stack call was rejected with this message.
    UpdateRejected { message: String },
    /// The describe-stacks poll answered with these status strings, one
    /// per matching stack.
    StatusDescribed { statuses: Vec<String> },
    /// The describe-stacks poll itself failed.
    StatusQueryFailed { message: String },
    /// The final poll result was shown; go on to the save decision.
    Proceed,
    /// The operator answered the save prompt with this line.
    SaveAnswer { line: String },
    /// Copying the artifacts finished; `error` names the failure, if any.
    PersistFinished { error: Option<String> },
}

/// What the shell must do next.
pub enum Action {
    /// Call get-template for the stack.
    FetchTemplate,
    /// Call describe-stacks for the stack's parameters.
    FetchParameters,
    /// Write the template and the encoded parameter file to the scratch
    /// locations.
    WriteArtifacts { template: String, params_text: String },
    /// Run the editor on both scratch files, one after the other.
    EditArtifacts,
    /// Read both scratch files back.
    ReadArtifacts,
    /// Call update-stack with this body and parameter list.
    SubmitUpdate { template: String, parameters: Vec<RemoteParam>, allow_capabilities: bool },
    /// Query the stack status now.
    QueryStatus,
    /// Report this status, wait the poll delay, and query again.
    PollAgain { status: String, class: StatusClass },
    /// Report this final status, then send `Proceed`.
    PollDone { status: String, class: StatusClass },
    /// Ask the operator whether to save the artifacts.
    PromptSave,
    /// Copy both artifacts to the durable directory.
    Persist,
    /// The run is over; report the persist failure if one is carried.
    Finish { persist_error: Option<String> },
    /// The run failed; the phase holds the error.
    Fail,
    /// Nothing to do: the event does not belong to the current phase.
    Halt,
}

/// One run's orchestrator: the run parameters and the current phase.
pub struct Orchestrator {
    pub stack_name: String,
    pub allow_capabilities: bool,
    pub persist_directive: Option<bool>,
    pub phase: Phase,
}

/// The phase after handling one event. An event that does not belong to
/// the current phase leaves it unchanged.
pub open spec fn next_phase(o: Orchestrator, e: Event) -> Phase {
    match (o.phase, e) {
        (Phase::Idle, Event::Start) => Phase::FetchingTemplate,
        (Phase::FetchingTemplate, Event::TemplateFetched { body }) => match body {
            Some(t) => Phase::FetchingParameters { template: t },
            None => Phase::Failed { error: CfnError::TemplateUnavailable },
        },
        (Phase::FetchingTemplate, Event::TemplateFetchFailed { message }) => Phase::Failed {
            error: CfnError::RemoteUnavailable(message),
        },
        (Phase::FetchingParameters { .. }, Event::StacksDescribed { stacks }) => if stacks@.len()
            == 0 {
            Phase::Failed { error: CfnError::RemoteNotFound }
        } else {
            Phase::Staging
        },
        (Phase::FetchingParameters { .. }, Event::DescribeFailed { message }) => Phase::Failed {
            error: CfnError::RemoteUnavailable(message),
        },
        (Phase::Staging, Event::ArtifactsWritten) => Phase::Editing,
        (Phase::Staging, Event::ArtifactWriteFailed { message }) => Phase::Failed {
            error: CfnError::ArtifactWriteFailed(message),
        },
        (Phase::Editing, Event::EditorFinished { success }) => if success {
            Phase::ReadingBack
        } else {
            Phase::Failed { error: CfnError::EditorInvocationFailed }
        },
        (Phase::ReadingBack, Event::ArtifactsRead { params_text, .. }) => match spec_decode(
            params_text@,
        ) {
            Ok(_) => Phase::Submitting,
            Err(ce) => Phase::Failed { error: cfn_of_codec(ce) },
        },
        (Phase::Submitting, Event::UpdateAccepted) => Phase::Polling,
        (Phase::Submitting, Event::UpdateRejected { message }) => Phase::Failed {
            error: CfnError::RemoteRejected(message),
        },
        (Phase::Polling, Event::StatusDescribed { statuses }) => if statuses@.len() == 0 {
            Phase::Failed { error: CfnError::RemoteNotFound }
        } else if statuses@.len() > 1 {
            Phase::Failed { error: CfnError::RemoteAmbiguous }
        } else if classify_spec(statuses@[0]@) == StatusClass::InProgress {
            Phase::Polling
        } else {
            Phase::SaveDecision
        },
        (Phase::Polling, Event::StatusQueryFailed { message }) => Phase::Failed {
            error: CfnError::RemoteUnavailable(message),
        },
        (Phase::SaveDecision, Event::Proceed) => match o.persist_directive {
            Some(true) => Phase::Persisting,
            Some(false) => Phase::Finished,
            None => Phase::AwaitingAnswer,
        },
        (Phase::AwaitingAnswer, Event::SaveAnswer { line }) => match answer_spec(line@) {
            Answer::Yes => Phase::Persisting,
            Answer::No => Phase::Finished,
            Answer::Retry => Phase::AwaitingAnswer,
        },
        (Phase::Persisting, Event::PersistFinished { .. }) => Phase::Finished,
        (ph, _) => ph,
    }
}

/// Whether handling this event in this phase submits the update.
pub open spec fn emits_submit(ph: Phase, e: Event) -> bool {
    &&& ph is ReadingBack
    &&& e matches Event::ArtifactsRead { params_text, .. } && spec_decode(params_text@) is Ok
}

/// What the returned action must be for each phase and event.
pub open spec fn step_action_ok(o: Orchestrator, e: Event, r: Action) -> bool {
    match (o.phase, e) {
        (Phase::Idle, Event::Start) => r == Action::FetchTemplate,
        (Phase::FetchingTemplate, Event::TemplateFetched { body }) => match body {
            Some(_) => r == Action::FetchParameters,
            None => r == Action::Fail,
        },
        (Phase::FetchingTemplate, Event::TemplateFetchFailed { .. }) => r == Action::Fail,
        (Phase::FetchingParameters { template }, Event::StacksDescribed { stacks }) => if stacks@
            .len() == 0 {
            r == Action::Fail
        } else {
            r matches Action::WriteArtifacts { template: t, params_text } && t == template
                && params_text@ == spec_encode(
                stacks@[0].parameters@.map_values(|p: RawParameter| normalize_spec(p)),
            )
        },
        (Phase::FetchingParameters { .. }, Event::DescribeFailed { .. }) => r == Action::Fail,
        (Phase::Staging, Event::ArtifactsWritten) => r == Action::EditArtifacts,
        (Phase::Staging, Event::ArtifactWriteFailed { .. }) => r == Action::Fail,
        (Phase::Editing, Event::EditorFinished { success }) => if success {
            r == Action::ReadArtifacts
        } else {
            r == Action::Fail
        },
        (Phase::ReadingBack, Event::ArtifactsRead { params_text, template }) => match spec_decode(
            params_text@,
        ) {
            Ok(ps) => r matches Action::SubmitUpdate {
                template: t,
                parameters,
                allow_capabilities,
            } && t == template && remote_view(parameters@) == ps && allow_capabilities
                == o.allow_capabilities,
            Err(_) => r == Action::Fail,
        },
        (Phase::Submitting, Event::UpdateAccepted) => r == Action::QueryStatus,
        (Phase::Submitting, Event::UpdateRejected { .. }) => r == Action::Fail,
        (Phase::Polling, Event::StatusDescribed { statuses }) => if statuses@.len() == 0
            || statuses@.len() > 1 {
            r == Action::Fail
        } else {
            if classify_spec(statuses@[0]@) == StatusClass::InProgress {
                r matches Action::PollAgain { status, class } && status == statuses@[0] && class
                    == classify_spec(statuses@[0]@)
            } else {
                r matches Action::PollDone { status, class } && status == statuses@[0] && class
                    == classify_spec(statuses@[0]@)
            }
        },
        (Phase::Polling, Event::StatusQueryFailed { .. }) => r == Action::Fail,
        (Phase::SaveDecision, Event::Proceed) => match o.persist_directive {
            Some(true) => r == Action::Persist,
            Some(false) => r == Action::Finish { persist_error: None },
            None => r == Action::PromptSave,
        },
        (Phase::AwaitingAnswer, Event::SaveAnswer { line }) => match answer_spec(line@) {
            Answer::Yes => r == Action::Persist,
            Answer::No => r == Action::Finish { persist_error: None },
            Answer::Retry => r == Action::PromptSave,
        },
        (Phase::Persisting, Event::PersistFinished { error }) => r == Action::Finish {
            persist_error: error,
        },
        (_, _) => r == Action::Halt,
    }
}

impl Orchestrator {
    /// A fresh orchestrator for one run, ready for `Event::Start`.
    pub fn new(stack_name: String, allow_capabilities: bool, persist_directive: Option<bool>) -> (r:
        Orchestrator)
        ensures
            r.phase is Idle,
            r.stack_name == stack_name,
            r.allow_capabilities == allow_capabilities,
            r.persist_directive == persist_directive,
    {
        Orchestrator { stack_name, allow_capabilities, persist_directive, phase: Phase::Idle }
    }

    /// Handle one event: move to the next phase and say what the shell
    /// must do now.
    pub fn step(&mut self, e: Event) -> (r: Action)
        ensures
            final(self).stack_name == old(self).stack_name,
            final(self).allow_capabilities == old(self).allow_capabilities,
            final(self).persist_directive == old(self).persist_directive,
            final(self).phase == next_phase(*old(self), e),
            step_action_ok(*old(self), e, r),
            (r is SubmitUpdate) <==> emits_submit(old(self).phase, e),
    {
        let mut ph = Phase::Idle;
        core::mem::swap(&mut ph, &mut self.phase);
        let (next, action): (Phase, Action) = match (ph, e) {
            (Phase::Idle, Event::Start) => (Phase::FetchingTemplate, Action::FetchTemplate),
            (Phase::FetchingTemplate, Event::TemplateFetched { body }) => match body {
                Some(t) => (
                    Phase::FetchingParameters { template: t },
                    Action::FetchParameters,
                ),
                None => (
                    Phase::Failed { error: CfnError::TemplateUnavailable },
                    Action::Fail,
                ),
            },
            (Phase::FetchingTemplate, Event::TemplateFetchFailed { message }) => (
                Phase::Failed { error: CfnError::RemoteUnavailable(message) },
                Action::Fail,
            ),
            (Phase::FetchingParameters { template }, Event::StacksDescribed { stacks }) => {
                if stacks.len() == 0 {
                    (Phase::Failed { error: CfnError::RemoteNotFound }, Action::Fail)
                } else {
                    let mut stacks = stacks;
                    let first = stacks.remove(0);
                    let records = normalize_parameters(first.parameters);
                    let params_text = encode(&records);
                    (Phase::Staging, Action::WriteArtifacts { template, params_text })
                }
            },
            (Phase::FetchingParameters { .. }, Event::DescribeFailed { message }) => (
                Phase::Failed { error: CfnError::RemoteUnavailable(message) },
                Action::Fail,
            ),
            (Phase::Staging, Event::ArtifactsWritten) => (Phase::Editing, Action::EditArtifacts),
            (Phase::Staging, Event::ArtifactWriteFailed { message }) => (
                Phase::Failed { error: CfnError::ArtifactWriteFailed(message) },
                Action::Fail,
            ),
            (Phase::Editing, Event::EditorFinished { success }) => {
                if success {
                    (Phase::ReadingBack, Action::ReadArtifacts)
                } else {
                    (Phase::Failed { error: CfnError::EditorInvocationFailed }, Action::Fail)
                }
            },
            (Phase::ReadingBack, Event::ArtifactsRead { params_text, template }) => {
                match decode(params_text.as_str()) {
                    Ok(records) => {
                        let parameters = to_remote(records);
                        (
                            Phase::Submitting,
                            Action::SubmitUpdate {
                                template,
                                parameters,
                                allow_capabilities: self.allow_capabilities,
                            },
                        )
                    },
                    Err(ce) => (
                        Phase::Failed { error: CfnError::from_codec(ce) },
                        Action::Fail,
                    ),
                }
            },
            (Phase::Submitting, Event::UpdateAccepted) => (Phase::Polling, Action::QueryStatus),
            (Phase::Submitting, Event::UpdateRejected { message }) => (
                Phase::Failed { error: CfnError::RemoteRejected(message) },
                Action::Fail,
            ),
            (Phase::Polling, Event::StatusDescribed { statuses }) => {
                if statuses.len() == 0 {
                    (Phase::Failed { error: CfnError::RemoteNotFound }, Action::Fail)
                } else if statuses.len() > 1 {
                    (Phase::Failed { error: CfnError::RemoteAmbiguous }, Action::Fail)
                } else {
                    let mut statuses = statuses;
                    let status = statuses.remove(0);
                    let class = classify(status.as_str());
                    if class == StatusClass::InProgress {
                        (Phase::Polling, Action::PollAgain { status, class })
                    } else {
                        (Phase::SaveDecision, Action::PollDone { status, class })
                    }
                }
            },
            (Phase::Polling, Event::StatusQueryFailed { message }) => (
                Phase::Failed { error: CfnError::RemoteUnavailable(message) },
                Action::Fail,
            ),
            (Phase::SaveDecision, Event::Proceed) => match self.persist_directive {
                Some(true) => (Phase::Persisting, Action::Persist),
                Some(false) => (Phase::Finished, Action::Finish { persist_error: None }),
                None => (Phase::AwaitingAnswer, Action::PromptSave),
            },
            (Phase::AwaitingAnswer, Event::SaveAnswer { line }) => {
                match parse_save_answer(line.as_str()) {
                    Answer::Yes => (Phase::Persisting, Action::Persist),
                    Answer::No => (Phase::Finished, Action::Finish { persist_error: None }),
                    Answer::Retry => (Phase::AwaitingAnswer, Action::PromptSave),
                }
            },
            (Phase::Persisting, Event::PersistFinished { error }) => (
                Phase::Finished,
                Action::Finish { persist_error: error },
            ),
            (p, _) => (p, Action::Halt),
        };
        self.phase = next;
        action
    }
}

// ---------------------------------------------------------------------------
// The sequencing law: nothing is submitted before the fetches and the
// editor step have succeeded.
// ---------------------------------------------------------------------------

/// The phase after a whole event sequence, from the orchestrator's
/// starting phase on.
pub open spec fn run_phases(o: Orchestrator, es: Seq<Event>) -> Phase
    decreases es.len(),
{
    if es.len() == 0 {
        o.phase
    } else {
        next_phase(
            Orchestrator { phase: run_phases(o, es.drop_last()), ..o },
            es.last(),
        )
    }
}

/// A successful template fetch.
pub open spec fn template_fetch_ok(e: Event) -> bool {
    e matches Event::TemplateFetched { body: Some(_) }
}

/// A successful parameter fetch: at least one stack record came back.
pub open spec fn params_fetch_ok(e: Event) -> bool {
    e matches Event::StacksDescribed { stacks } && stacks@.len() > 0
}

/// A successful editor step for both files.
pub open spec fn editor_ok(e: Event) -> bool {
    e matches Event::EditorFinished { success: true }
}

pub open spec fn had_template(es: Seq<Event>) -> bool {
    exists|j: int| 0 <= j < es.len() && template_fetch_ok(#[trigger] es[j])
}

pub open spec fn had_params(es: Seq<Event>) -> bool {
    exists|j: int| 0 <= j < es.len() && params_fetch_ok(#[trigger] es[j])
}

pub open spec fn had_editor(es: Seq<Event>) -> bool {
    exists|j: int| 0 <= j < es.len() && editor_ok(#[trigger] es[j])
}

/// The phases a run can only reach after its template fetch succeeded.
pub open spec fn past_template_fetch(ph: Phase) -> bool {
    ph is FetchingParameters || ph is Staging || ph is Editing || ph is ReadingBack
        || ph is Submitting || ph is Polling || ph is SaveDecision || ph is AwaitingAnswer
        || ph is Persisting || ph is Finished
}

/// The phases a run can only reach after its parameter fetch succeeded.
pub open spec fn past_params_fetch(ph: Phase) -> bool {
    ph is Staging || ph is Editing || ph is ReadingBack || ph is Submitting || ph is Polling
        || ph is SaveDecision || ph is AwaitingAnswer || ph is Persisting || ph is Finished
}

/// The phases a run can only reach after the editor step succeeded.
pub open spec fn past_editing(ph: Phase) -> bool {
    ph is ReadingBack || ph is Submitting || ph is Polling || ph is SaveDecision
        || ph is AwaitingAnswer || ph is Persisting || ph is Finished
}

proof fn lemma_had_extend(es: Seq<Event>)
    requires
        es.len() > 0,
    ensures
        had_template(es.drop_last()) ==> had_template(es),
        had_params(es.drop_last()) ==> had_params(es),
        had_editor(es.drop_last()) ==> had_editor(es),
{
    let h = es.drop_last();
    if had_template(h) {
        let j = choose|j: int| 0 <= j < h.len() && template_fetch_ok(#[trigger] h[j]);
        assert(es[j] == h[j]);
        assert(template_fetch_ok(es[j]));
    }
    if had_params(h) {
        let j = choose|j: int| 0 <= j < h.len() && params_fetch_ok(#[trigger] h[j]);
        assert(es[j] == h[j]);
        assert(params_fetch_ok(es[j]));
    }
    if had_editor(h) {
        let j = choose|j: int| 0 <= j < h.len() && editor_ok(#[trigger] h[j]);
        assert(es[j] == h[j]);
        assert(editor_ok(es[j]));
    }
}

proof fn lemma_run_invariants(o: Orchestrator, es: Seq<Event>)
    requires
        o.phase is Idle,
    ensures
        past_template_fetch(run_phases(o, es)) ==> had_template(es),
        past_params_fetch(run_phases(o, es)) ==> had_params(es),
        past_editing(run_phases(o, es)) ==> had_editor(es),
    decreases es.len(),
{
    if es.len() == 0 {
    } else {
        let h = es.drop_last();
        let last = es.last();
        lemma_run_invariants(o, h);
        lemma_had_extend(es);
        let prev = run_phases(o, h);
        let cur = run_phases(o, es);
        assert(cur == next_phase(Orchestrator { phase: prev, ..o }, last));
        if past_template_fetch(cur) && !past_template_fetch(prev) {
            assert(template_fetch_ok(last));
            assert(had_template(es)) by {
                assert(template_fetch_ok(es[es.len() - 1]));
            }
        }
        if past_params_fetch(cur) && !past_params_fetch(prev) {
            assert(params_fetch_ok(last));
            assert(had_params(es)) by {
                assert(params_fetch_ok(es[es.len() - 1]));
            }
        }
        if past_editing(cur) && !past_editing(prev) {
            assert(editor_ok(last));
            assert(had_editor(es)) by {
                assert(editor_ok(es[es.len() - 1]));
            }
        }
    }
}

/// The update is never submitted before the template fetch, the parameter
/// fetch and the editor step have all succeeded: whenever a step out of
/// the phase reached by an event sequence emits the submit action, that
/// sequence already holds a successful template fetch, a successful
/// parameter fetch and a successful editor completion.
pub proof fn lemma_submit_only_after_fetch_and_edit(o: Orchestrator, es: Seq<Event>, e: Event)
    requires
        o.phase is Idle,
        emits_submit(run_phases(o, es), e),
    ensures
        had_template(es),
        had_params(es),
        had_editor(es),
{
    lemma_run_invariants(o, es);
}

} // verus!
