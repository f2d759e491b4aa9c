//! The authoritative application state behind the terminal UI: persistent sessions, the
//! single in-flight user turn, and the decisions that drive it.
//!
//! Work that touches the outside world (writing session files, running commands,
//! streaming model output) is performed by the caller; this module decides what happens,
//! in which order, and how each outcome changes the state.
use vstd::prelude::*;

use crate::execute::{ExecResult, ExecResultSpec, ExecutionSettings};
use crate::model::{
    AvailableModel, ModelEvent, ModelParameters, ModelRuntimeState, StartupModelSelection, ToolCall,
    ToolCallSpec, TokenUsage, calls_view, duplicate_calls,
};
use crate::paths::{file_name_of, file_stem_of, path_file_name, path_file_stem};
use crate::session::{
    AppSnapshot, MessageRole, SessionId, SessionSummary, SessionView, StoredMessage,
    StoredMessageSpec, StoredSession, StoredSessionSpec, duplicate_strings, exec_result_message,
    plain_message, push_exec_result, session_id_is_valid, session_summary, session_view,
    shows_session, strings_view, summarises, title_from_first_message, title_of, valid_session_id,
    RUNTIME_SETTINGS_FILE_NAME, LEGACY_DEFAULT_SETTINGS_FILE_NAME,
};
use crate::text::{decimal, push_decimal, str_eq, concat3};

verus! {

/// Milliseconds between throttled writes of a session that is receiving streamed output.
pub const STREAM_PERSIST_INTERVAL_MS: u64 = 300;

// ---------------------------------------------------------------------------
// Loading stored sessions
// ---------------------------------------------------------------------------

/// Whether the identities of the sessions are pairwise distinct.
pub open spec fn distinct_ids(ss: Seq<StoredSession>) -> bool {
    forall|i: int, j: int| 0 <= i < j < ss.len() ==> (#[trigger] ss[i]).id.0@ != (#[trigger] ss[j]).id.0@
}

/// Whether a session with identity `id` is stored.
pub open spec fn has_id(ss: Seq<StoredSession>, id: Seq<char>) -> bool {
    exists|i: int| 0 <= i < ss.len() && (#[trigger] ss[i]).id.0@ == id
}

/// Finds the index of the session with identity `id`.
fn position_of(ss: &Vec<StoredSession>, id: &str) -> (r: Option<usize>)
    ensures
        match r {
            Some(i) => i < ss@.len() && ss@[i as int].id.0@ == id@ && forall|j: int| 0 <= j < i ==> (#[trigger] ss@[j]).id.0@ != id@,
            None => !has_id(ss@, id@),
        },
{
    let mut i: usize = 0;
    while i < ss.len()
        invariant
            i <= ss@.len(),
            forall|j: int| 0 <= j < i ==> (#[trigger] ss@[j]).id.0@ != id@,
        decreases ss@.len() - i,
    {
        if str_eq(ss[i].id.0.as_str(), id) {
            return Some(i);
        }
        i = i + 1;
    }
    None
}

/// Stored sessions read at startup, with the warnings for the files that were skipped.
/// Identities are distinct, valid, and equal to the file names they were read from.
pub struct LoadedSessions {
    sessions: Vec<StoredSession>,
    warnings: Vec<String>,
}

/// Whether a file in the sessions directory holds settings rather than a session.
pub open spec fn is_settings_file(path: Seq<char>) -> bool {
    path_file_name(path) == Some(RUNTIME_SETTINGS_FILE_NAME@) || path_file_name(path) == Some(
        LEGACY_DEFAULT_SETTINGS_FILE_NAME@,
    )
}

/// What happened to one file offered to [`LoadedSessions::offer`].
#[derive(Debug, Clone, Copy, PartialEq, Eq, Structural)]
pub enum LoadOutcome {
    Settings,
    Invalid,
    InvalidId,
    NameMismatch,
    Duplicate,
    Loaded,
}

impl LoadedSessions {
    pub closed spec fn sessions(&self) -> Seq<StoredSession> {
        self.sessions@
    }

    pub closed spec fn warnings(&self) -> Seq<Seq<char>> {
        strings_view(self.warnings@)
    }

    pub closed spec fn wf(&self) -> bool {
        &&& distinct_ids(self.sessions@)
        &&& forall|i: int| 0 <= i < self.sessions@.len() ==> valid_session_id(#[trigger] self.sessions@[i].id.0@)
    }

    pub fn new() -> (r: LoadedSessions)
        ensures
            r.wf(),
            r.sessions().len() == 0,
            r.warnings().len() == 0,
    {
        let r = LoadedSessions { sessions: Vec::new(), warnings: Vec::new() };
        assert(r.warnings() =~= Seq::<Seq<char>>::empty());
        r
    }

    /// Whether a file is skipped before it is read: the runtime settings and the legacy
    /// default settings are stored beside the sessions.
    pub fn skips(path: &str) -> (r: bool)
        ensures
            r == is_settings_file(path@),
    {
        match file_name_of(path) {
            Some(name) => str_eq(name.as_str(), RUNTIME_SETTINGS_FILE_NAME) || str_eq(
                name.as_str(),
                LEGACY_DEFAULT_SETTINGS_FILE_NAME,
            ),
            None => false,
        }
    }

    /// Offers the file at `path`, with the session parsed from it or the parse error.
    /// A session is kept only when its identity is valid, equals the file stem, and is not
    /// already loaded; every other file except the settings files yields one warning.
    pub fn offer(&mut self, path: &str, parsed: Result<StoredSession, String>) -> (r: LoadOutcome)
        requires
            old(self).wf(),
        ensures
            final(self).wf(),
            r == (if is_settings_file(path@) {
                LoadOutcome::Settings
            } else {
                match parsed {
                    Err(_) => LoadOutcome::Invalid,
                    Ok(s) => if !valid_session_id(s.id.0@) {
                        LoadOutcome::InvalidId
                    } else if path_file_stem(path@) != Some(s.id.0@) {
                        LoadOutcome::NameMismatch
                    } else if has_id(old(self).sessions(), s.id.0@) {
                        LoadOutcome::Duplicate
                    } else {
                        LoadOutcome::Loaded
                    },
                }
            }),
            r == LoadOutcome::Loaded ==> final(self).sessions() == old(self).sessions().push(parsed->Ok_0),
            r != LoadOutcome::Loaded ==> final(self).sessions() == old(self).sessions(),
            r == LoadOutcome::Settings ==> final(self).warnings() == old(self).warnings(),
            r == LoadOutcome::Loaded ==> final(self).warnings() == old(self).warnings(),
            r == LoadOutcome::Invalid ==> final(self).warnings() == old(self).warnings().push(
                "Skipped invalid session "@ + path@ + ": "@ + parsed->Err_0@,
            ),
            r == LoadOutcome::InvalidId ==> final(self).warnings() == old(self).warnings().push(
                "Skipped session with an invalid ID: "@ + path@,
            ),
            r == LoadOutcome::NameMismatch ==> final(self).warnings() == old(self).warnings().push(
                "Skipped session whose ID does not match its file name: "@ + path@,
            ),
            r == LoadOutcome::Duplicate ==> final(self).warnings() == old(self).warnings().push(
                "Skipped duplicate session: "@ + path@,
            ),
    {
        if Self::skips(path) {
            return LoadOutcome::Settings;
        }
        let ghost w = self.warnings@;
        let session = match parsed {
            Err(error) => {
                let mut text = String::from_str("Skipped invalid session ");
                text.append(path);
                text.append(": ");
                text.append(error.as_str());
                self.warnings.push(text);
                assert(self.warnings() =~= strings_view(w).push(
                    "Skipped invalid session "@ + path@ + ": "@ + error@,
                ));
                return LoadOutcome::Invalid;
            },
            Ok(s) => s,
        };
        if !session_id_is_valid(&session.id) {
            let mut text = String::from_str("Skipped session with an invalid ID: ");
            text.append(path);
            self.warnings.push(text);
            assert(self.warnings() =~= strings_view(w).push("Skipped session with an invalid ID: "@ + path@));
            return LoadOutcome::InvalidId;
        }
        let stem_matches = match file_stem_of(path) {
            Some(stem) => str_eq(stem.as_str(), session.id.0.as_str()),
            None => false,
        };
        if !stem_matches {
            let mut text = String::from_str("Skipped session whose ID does not match its file name: ");
            text.append(path);
            self.warnings.push(text);
            assert(self.warnings() =~= strings_view(w).push(
                "Skipped session whose ID does not match its file name: "@ + path@,
            ));
            return LoadOutcome::NameMismatch;
        }
        if position_of(&self.sessions, session.id.0.as_str()).is_some() {
            let mut text = String::from_str("Skipped duplicate session: ");
            text.append(path);
            self.warnings.push(text);
            assert(self.warnings() =~= strings_view(w).push("Skipped duplicate session: "@ + path@));
            return LoadOutcome::Duplicate;
        }
        self.sessions.push(session);
        LoadOutcome::Loaded
    }

    /// The loaded sessions, in the order they were accepted.
    pub fn sessions_view(&self) -> (r: Vec<SessionSummary>)
        ensures
            r@.len() == self.sessions().len(),
            forall|i: int| 0 <= i < r@.len() ==> summarises(#[trigger] r@[i], self.sessions()[i]@),
    {
        let mut out: Vec<SessionSummary> = Vec::new();
        let mut i: usize = 0;
        while i < self.sessions.len()
            invariant
                i <= self.sessions@.len(),
                out@.len() == i,
                forall|j: int| 0 <= j < i ==> summarises(#[trigger] out@[j], self.sessions@[j]@),
            decreases self.sessions@.len() - i,
        {
            out.push(session_summary(&self.sessions[i]));
            i = i + 1;
        }
        out
    }

    /// The warnings collected so far.
    pub fn warnings_view(&self) -> (r: Vec<String>)
        ensures
            strings_view(r@) == self.warnings(),
    {
        duplicate_strings(self.warnings.as_slice())
    }
}

// ---------------------------------------------------------------------------
// The in-flight turn
// ---------------------------------------------------------------------------

/// The outside work the current turn waits for.
pub enum PendingWork {
    /// A streamed model request; `cancelling` once the user has interrupted it.
    Model { cancelling: bool },
    /// A running command for the tool call `call_id`, with the calls still to run after it.
    Command { call_id: String, remaining: Vec<ToolCall>, cancelled: bool },
}

struct PendingTurn {
    session_id: SessionId,
    work: PendingWork,
}

struct PendingSessionWrite {
    session_id: SessionId,
    due_at_ms: u64,
}

/// How a model request ended, recorded until the turn can move on.
pub enum TurnBoundary {
    ToolCalls(Vec<ToolCall>),
    Complete,
    Failed(String),
    Cancelled,
    Disconnected,
}

/// The mathematical value of [`PendingWork`].
pub enum WorkSpec {
    Model { cancelling: bool },
    Command { call_id: Seq<char>, remaining: Seq<ToolCallSpec>, cancelled: bool },
}

/// The mathematical value of [`TurnBoundary`].
pub enum BoundarySpec {
    ToolCalls(Seq<ToolCallSpec>),
    Complete,
    Failed(Seq<char>),
    Cancelled,
    Disconnected,
}

impl View for PendingWork {
    type V = WorkSpec;

    open spec fn view(&self) -> WorkSpec {
        match self {
            PendingWork::Model { cancelling } => WorkSpec::Model { cancelling: *cancelling },
            PendingWork::Command { call_id, remaining, cancelled } => WorkSpec::Command {
                call_id: call_id@,
                remaining: calls_view(remaining@),
                cancelled: *cancelled,
            },
        }
    }
}

impl View for TurnBoundary {
    type V = BoundarySpec;

    open spec fn view(&self) -> BoundarySpec {
        match self {
            TurnBoundary::ToolCalls(calls) => BoundarySpec::ToolCalls(calls_view(calls@)),
            TurnBoundary::Complete => BoundarySpec::Complete,
            TurnBoundary::Failed(e) => BoundarySpec::Failed(e@),
            TurnBoundary::Cancelled => BoundarySpec::Cancelled,
            TurnBoundary::Disconnected => BoundarySpec::Disconnected,
        }
    }
}

/// An outcome observed on the worker of the current turn.
pub enum WorkerEvent {
    /// Nothing is available yet.
    Empty,
    /// The worker has gone away.
    Disconnected,
    /// The model stream produced an event.
    Model(ModelEvent),
    /// The running command finished.
    Command(ExecResult),
}

/// What the caller does next while polling.
pub enum PollStep {
    /// No work is in flight: polling is done.
    Idle,
    /// Write this session file, then report it with [`Control::session_written`].
    WriteSession(StoredSession),
    /// Write this session, which records the requested tool calls, then call
    /// [`Control::tool_calls_written`].
    WriteToolCalls(StoredSession),
    /// The model request has ended: call [`Control::finish_turn`].
    FinishTurn,
    /// Take one event from the worker and pass it to [`Control::observe`].
    Receive,
}

/// How an observed worker event changed the turn.
pub enum Observation {
    /// Nothing was available: polling is done for now.
    Idle,
    /// The event was recorded in memory: keep polling.
    Continue,
    /// The event must be persisted now: write this session, then call
    /// [`Control::session_written`].
    WriteSession(StoredSession),
    /// A command finished: write this session, which records its result, then call
    /// [`Control::results_written`] with it.
    WriteResults(StoredSession),
}

/// What follows once tool calls or command results have been persisted.
pub enum NextWork {
    /// The turn stops here.
    Stop,
    /// Run this command; the turn now waits for it.
    RunCommand(ToolCall),
    /// Send the session's history to the model again.
    RequestModel(SessionId),
}

/// What an interruption must cancel.
#[derive(Debug, Clone, Copy, PartialEq, Eq, Structural)]
pub enum InterruptSignal {
    /// No work could be interrupted.
    Nothing,
    /// Close the model request.
    CancelModelRequest,
    /// Stop the running command's process group.
    CancelCommand,
}

/// Read-only runtime information for the informational rail.
#[derive(Debug, Clone, PartialEq, Eq)]
pub struct RuntimeView {
    pub model_name: Option<String>,
    pub status: String,
    pub llama_version: String,
    pub context_size: u32,
    pub prompt_tokens: Option<u32>,
    pub completion_tokens: Option<u32>,
    pub context_full: bool,
}

/// Read-only startup selector data for the terminal UI.
#[derive(Debug, Clone, PartialEq, Eq)]
pub struct StartupModelSelectionView {
    pub names: Vec<String>,
    pub selected_index: usize,
}

// ---------------------------------------------------------------------------
// How a turn changes a session
// ---------------------------------------------------------------------------

/// The session after the user submits `content`: a session without messages is titled by
/// it, and the message is appended.
pub open spec fn with_user_message(s: StoredSessionSpec, content: Seq<char>) -> StoredSessionSpec {
    StoredSessionSpec {
        title: if s.messages.len() == 0 { title_of(content) } else { s.title },
        messages: s.messages.push(plain_message(MessageRole::User, content)),
        ..s
    }
}

/// The session after a streamed delta: it extends the trailing model message, or starts one.
pub open spec fn with_delta(s: StoredSessionSpec, content: Seq<char>, reasoning: Seq<char>) -> StoredSessionSpec {
    if s.messages.len() > 0 && s.messages.last().role == MessageRole::Model {
        let last = s.messages.last();
        StoredSessionSpec {
            messages: s.messages.update(
                s.messages.len() - 1,
                StoredMessageSpec {
                    content: last.content + content,
                    reasoning_content: last.reasoning_content + reasoning,
                    ..last
                },
            ),
            ..s
        }
    } else {
        StoredSessionSpec {
            messages: s.messages.push(
                StoredMessageSpec { reasoning_content: reasoning, ..plain_message(MessageRole::Model, content) },
            ),
            ..s
        }
    }
}

/// The session with its selected profiles toggled: a selected profile is removed,
/// another one is appended.
pub open spec fn with_profile_toggled(s: StoredSessionSpec, profile: Seq<char>) -> StoredSessionSpec {
    StoredSessionSpec {
        profiles: match s.profiles.index_of_first(profile) {
            Some(i) => s.profiles.remove(i),
            None => s.profiles.push(profile),
        },
        ..s
    }
}

/// The message that records a requested command.
pub open spec fn exec_message(call: ToolCallSpec) -> StoredMessageSpec {
    StoredMessageSpec { tool_call_id: call.id, ..plain_message(MessageRole::Exec, call.command) }
}

/// The result recorded for a call beyond the per-turn limit.
pub open spec fn limit_result(max: nat) -> ExecResultSpec {
    ExecResultSpec {
        stdout: Seq::empty(),
        stderr: "Tool call was not run: the limit of "@ + decimal(max) + " calls per user turn was reached."@,
        status: "tool call limit reached"@,
        exit_code: None,
        duration_ms: 0,
        timed_out: false,
    }
}

/// The result recorded for a call skipped because the user interrupted the turn.
pub open spec fn interrupted_result() -> ExecResultSpec {
    ExecResultSpec {
        stdout: Seq::empty(),
        stderr: "Tool call was not run because the user interrupted the turn."@,
        status: "not run: interrupted"@,
        exit_code: None,
        duration_ms: 0,
        timed_out: false,
    }
}

/// Records requested tool calls: every call gets an exec message; calls within the per-turn
/// limit are runnable, the others immediately get a limit result. Returns the session, the
/// runnable calls, and the number of calls started in this turn.
pub open spec fn tool_call_plan(s: StoredSessionSpec, calls: Seq<ToolCallSpec>, started: nat, max: nat) -> (StoredSessionSpec, Seq<ToolCallSpec>, nat)
    decreases calls.len(),
{
    if calls.len() == 0 {
        (s, Seq::empty(), started)
    } else {
        let (s1, run1, st1) = tool_call_plan(s, calls.drop_last(), started, max);
        let c = calls.last();
        let s2 = StoredSessionSpec { messages: s1.messages.push(exec_message(c)), ..s1 };
        if st1 < max {
            (s2, run1.push(c), st1 + 1)
        } else {
            (
                StoredSessionSpec {
                    messages: s2.messages.push(exec_result_message(limit_result(max), c.id)),
                    ..s2
                },
                run1,
                st1,
            )
        }
    }
}

/// Records skipped calls with an interrupted result each.
pub open spec fn with_skipped(s: StoredSessionSpec, skipped: Seq<ToolCallSpec>) -> StoredSessionSpec
    decreases skipped.len(),
{
    if skipped.len() == 0 {
        s
    } else {
        let s1 = with_skipped(s, skipped.drop_last());
        StoredSessionSpec {
            messages: s1.messages.push(exec_result_message(interrupted_result(), skipped.last().id)),
            ..s1
        }
    }
}

/// Recording tool calls changes only the messages of a session, and never lowers the
/// count of started calls nor raises it past the larger of its start and the limit.
pub proof fn lemma_tool_call_plan_keeps(s: StoredSessionSpec, calls: Seq<ToolCallSpec>, started: nat, max: nat)
    ensures
        ({
            let p = tool_call_plan(s, calls, started, max);
            &&& p.0 == (StoredSessionSpec { messages: p.0.messages, ..s })
            &&& started <= p.2
            &&& p.2 <= if started > max { started } else { max }
            &&& p.2 == started + p.1.len()
        }),
    decreases calls.len(),
{
    if calls.len() > 0 {
        lemma_tool_call_plan_keeps(s, calls.drop_last(), started, max);
    }
}

/// Recording skipped calls changes only the messages of a session.
pub proof fn lemma_with_skipped_keeps(s: StoredSessionSpec, skipped: Seq<ToolCallSpec>)
    ensures
        with_skipped(s, skipped) == (StoredSessionSpec { messages: with_skipped(s, skipped).messages, ..s }),
    decreases skipped.len(),
{
    if skipped.len() > 0 {
        lemma_with_skipped_keeps(s, skipped.drop_last());
    }
}

/// The work after an interruption, and what must be cancelled: a running model request or
/// command is marked as being stopped; work already being stopped is left alone.
pub open spec fn interrupt_step(w: Option<WorkSpec>) -> (Option<WorkSpec>, InterruptSignal) {
    match w {
        Some(WorkSpec::Model { cancelling: false }) => (
            Some(WorkSpec::Model { cancelling: true }),
            InterruptSignal::CancelModelRequest,
        ),
        Some(WorkSpec::Command { call_id, remaining, cancelled: false }) => (
            Some(WorkSpec::Command { call_id, remaining, cancelled: true }),
            InterruptSignal::CancelCommand,
        ),
        _ => (w, InterruptSignal::Nothing),
    }
}

/// How a turn's work ends when its worker goes away: a model request the user interrupted
/// was cancelled; anything else lost its worker.
pub open spec fn disconnect_boundary(w: Option<WorkSpec>) -> BoundarySpec {
    if w == Some(WorkSpec::Model { cancelling: true }) {
        BoundarySpec::Cancelled
    } else {
        BoundarySpec::Disconnected
    }
}

/// The error a turn ends with, by how its model request ended: none for a complete or a
/// cancelled request.
pub open spec fn turn_error(b: BoundarySpec) -> Option<Seq<char>> {
    match b {
        BoundarySpec::Failed(e) => Some("model request failed: "@ + e),
        BoundarySpec::Disconnected => Some("turn worker disconnected"@),
        _ => None,
    }
}

/// The runtime status shown for the startup state and the polled runtime.
pub open spec fn runtime_status(startup: StartupModelSelection, runtime: Option<Result<ModelRuntimeState, String>>) -> Seq<char> {
    match runtime {
        None => match startup {
            StartupModelSelection::NoUsableModels => "No usable models in models/"@,
            StartupModelSelection::Selected(_) => "RUNTIME NOT STARTED"@,
            StartupModelSelection::SelectionRequired { .. } => "SELECT A STARTUP MODEL"@,
        },
        Some(Ok(ModelRuntimeState::Starting)) => "STARTING"@,
        Some(Ok(ModelRuntimeState::Ready)) => "READY"@,
        Some(Ok(ModelRuntimeState::Failed(error))) => error@,
        Some(Err(error)) => "runtime poll failed: "@ + error@,
    }
}

/// The pending write after new output of the session `id` arrives at `now_ms`: a write
/// already pending keeps its deadline (the throttle); otherwise one falls due after the
/// throttle interval.
pub open spec fn dirty_after(dirty: Option<(Seq<char>, u64)>, id: Seq<char>, now_ms: u64) -> Option<(Seq<char>, u64)> {
    match dirty {
        Some(d) => Some(d),
        None => Some((id, if now_ms + STREAM_PERSIST_INTERVAL_MS > u64::MAX {
            u64::MAX
        } else {
            (now_ms + STREAM_PERSIST_INTERVAL_MS) as u64
        })),
    }
}

/// The error that keeps a request from starting while the runtime is not ready.
pub open spec fn not_ready_error(state: ModelRuntimeState) -> Option<Seq<char>> {
    match state {
        ModelRuntimeState::Ready => None,
        ModelRuntimeState::Starting => Some("model runtime is still starting"@),
        ModelRuntimeState::Failed(error) => Some("model runtime failed: "@ + error@),
    }
}

/// The error that keeps a request from starting, if the runtime is not ready.
pub fn runtime_not_ready_error(state: ModelRuntimeState) -> (r: Option<String>)
    ensures
        match r {
            Some(e) => not_ready_error(state) == Some(e@),
            None => not_ready_error(state) is None,
        },
{
    match state {
        ModelRuntimeState::Ready => None,
        ModelRuntimeState::Starting => Some(String::from_str("model runtime is still starting")),
        ModelRuntimeState::Failed(error) => {
            let mut s = String::from_str("model runtime failed: ");
            s.append(error.as_str());
            Some(s)
        },
    }
}

// ---------------------------------------------------------------------------
// Control
// ---------------------------------------------------------------------------

/// Authoritative application boundary between the terminal UI and runtime work.
///
/// Persistent sessions and in-flight turns live here rather than in the UI.
pub struct Control {
    model: ModelParameters,
    execution: ExecutionSettings,
    startup_model: StartupModelSelection,
    sessions: Vec<StoredSession>,
    active_session: Option<SessionId>,
    pending: Option<PendingTurn>,
    pending_write: Option<PendingSessionWrite>,
    boundary: Option<TurnBoundary>,
    startup_warnings: Vec<String>,
    tool_calls_started: usize,
}

impl Control {
    // -- the abstract state ---------------------------------------------------

    /// The stored sessions, in display order.
    pub closed spec fn sessions(&self) -> Seq<StoredSessionSpec> {
        self.sessions@.map_values(|s: StoredSession| s@)
    }

    /// The identity of the active session.
    pub closed spec fn active(&self) -> Option<Seq<char>> {
        match self.active_session {
            Some(id) => Some(id.0@),
            None => None,
        }
    }

    /// The session of the in-flight turn.
    pub closed spec fn turn_session(&self) -> Option<Seq<char>> {
        match self.pending {
            Some(t) => Some(t.session_id.0@),
            None => None,
        }
    }

    /// The outside work the in-flight turn waits for.
    pub closed spec fn work(&self) -> Option<WorkSpec> {
        match self.pending {
            Some(t) => Some(t.work@),
            None => None,
        }
    }

    /// How the model request of the in-flight turn ended, if it has.
    pub closed spec fn boundary(&self) -> Option<BoundarySpec> {
        match self.boundary {
            Some(b) => Some(b@),
            None => None,
        }
    }

    /// The session whose streamed output is not yet persisted, with the time its write is due.
    pub closed spec fn dirty(&self) -> Option<(Seq<char>, u64)> {
        match self.pending_write {
            Some(w) => Some((w.session_id.0@, w.due_at_ms)),
            None => None,
        }
    }

    /// The number of commands started in the current user turn.
    pub closed spec fn calls_started(&self) -> nat {
        self.tool_calls_started as nat
    }

    /// The model parameters.
    pub closed spec fn parameters(&self) -> ModelParameters {
        self.model
    }

    /// The execution limits.
    pub closed spec fn limits(&self) -> ExecutionSettings {
        self.execution
    }

    /// The startup model state.
    pub closed spec fn startup(&self) -> StartupModelSelection {
        self.startup_model
    }

    /// The recoverable startup warnings not yet taken.
    pub closed spec fn warnings(&self) -> Seq<Seq<char>> {
        strings_view(self.startup_warnings@)
    }

    /// The index of the session with identity `id`.
    pub open spec fn index_of(&self, id: Seq<char>) -> int {
        choose|i: int| 0 <= i < self.sessions().len() && (#[trigger] self.sessions()[i]).id == id
    }

    /// Whether a session with identity `id` is stored.
    pub open spec fn stores(&self, id: Seq<char>) -> bool {
        exists|i: int| 0 <= i < self.sessions().len() && (#[trigger] self.sessions()[i]).id == id
    }

    /// The well-formedness of the state: identities are distinct, and the active session,
    /// the turn's session and the dirty session exist. Only the turn's session can be dirty,
    /// and a recorded boundary belongs to an in-flight turn.
    pub closed spec fn wf(&self) -> bool {
        &&& distinct_ids(self.sessions@)
        &&& (self.active_session matches Some(id) ==> has_id(self.sessions@, id.0@))
        &&& (self.pending matches Some(t) ==> has_id(self.sessions@, t.session_id.0@))
        &&& (self.pending_write matches Some(w) ==> self.pending matches Some(t) && t.session_id.0@
            == w.session_id.0@)
        &&& (self.boundary is Some ==> self.pending is Some)
    }

    /// What well-formedness guarantees callers: only the turn's session can hold output not
    /// yet persisted, every session the state names is stored, an ending is recorded only for
    /// a turn in flight, and identities are distinct.
    pub proof fn lemma_wf(&self)
        requires
            self.wf(),
        ensures
            self.dirty() matches Some(d) ==> self.turn_session() == Some(d.0),
            self.turn_session() matches Some(id) ==> self.stores(id),
            self.active() matches Some(id) ==> self.stores(id),
            self.boundary() is Some ==> self.turn_session() is Some,
            forall|i: int, j: int| 0 <= i < j < self.sessions().len() ==> (#[trigger] self.sessions()[i]).id
                != (#[trigger] self.sessions()[j]).id,
    {
        self.lemma_views();
        assert forall|i: int, j: int| 0 <= i < j < self.sessions().len() implies (#[trigger] self.sessions()[i]).id
            != (#[trigger] self.sessions()[j]).id by {
            assert(self.sessions()[i] == self.sessions@[i]@);
            assert(self.sessions()[j] == self.sessions@[j]@);
        }
    }

    proof fn lemma_views(&self)
        ensures
            self.sessions().len() == self.sessions@.len(),
            forall|i: int| 0 <= i < self.sessions@.len() ==> #[trigger] self.sessions()[i] == self.sessions@[i]@,
            forall|id: Seq<char>| has_id(self.sessions@, id) == self.stores(id),
    {
        assert forall|id: Seq<char>| has_id(self.sessions@, id) == self.stores(id) by {
            if has_id(self.sessions@, id) {
                let i = choose|i: int| 0 <= i < self.sessions@.len() && (#[trigger] self.sessions@[i]).id.0@ == id;
                assert(self.sessions()[i] == self.sessions@[i]@);
            }
            if self.stores(id) {
                let i = choose|i: int| 0 <= i < self.sessions().len() && (#[trigger] self.sessions()[i]).id == id;
                assert(self.sessions()[i] == self.sessions@[i]@);
                assert(self.sessions@[i].id.0@ == id);
            }
        }
    }

    // -- construction -----------------------------------------------------------

    /// The state after startup: the first loaded session is active and no turn is in flight.
    pub fn new(
        model: ModelParameters,
        execution: ExecutionSettings,
        startup_model: StartupModelSelection,
        loaded: LoadedSessions,
    ) -> (r: Control)
        requires
            loaded.wf(),
        ensures
            r.wf(),
            r.sessions() == loaded.sessions().map_values(|s: StoredSession| s@),
            r.active() == (if loaded.sessions().len() > 0 { Some(loaded.sessions()[0].id.0@) } else { None::<Seq<char>> }),
            r.turn_session() is None,
            r.boundary() is None,
            r.dirty() is None,
            r.warnings() == loaded.warnings(),
            r.parameters() == model,
            r.limits() == execution,
            r.startup() == startup_model,
            r.calls_started() == 0,
    {
        let LoadedSessions { sessions, warnings } = loaded;
        let active_session = if sessions.len() > 0 {
            Some(sessions[0].id.duplicate())
        } else {
            None
        };
        let r = Control {
            model,
            execution,
            startup_model,
            sessions,
            active_session,
            pending: None,
            pending_write: None,
            boundary: None,
            startup_warnings: warnings,
            tool_calls_started: 0,
        };
        proof {
            if r.sessions@.len() > 0 {
                assert(r.sessions@[0].id.0@ == r.active_session->Some_0.0@);
            }
        }
        r
    }

    // -- read-only queries ------------------------------------------------------

    /// Renderable session data without exposing mutable session state.
    pub fn snapshot(&self) -> (r: AppSnapshot)
        requires
            self.wf(),
        ensures
            r.sessions@.len() == self.sessions().len(),
            forall|i: int| 0 <= i < r.sessions@.len() ==> summarises(#[trigger] r.sessions@[i], self.sessions()[i]),
            match self.active() {
                Some(id) => r.active_session matches Some(v) && shows_session(v, self.sessions()[self.index_of(id)]),
                None => r.active_session is None,
            },
    {
        proof {
            self.lemma_views();
        }
        let mut sessions: Vec<SessionSummary> = Vec::new();
        let mut i: usize = 0;
        while i < self.sessions.len()
            invariant
                self.wf(),
                i <= self.sessions@.len(),
                sessions@.len() == i,
                forall|j: int| 0 <= j < i ==> summarises(#[trigger] sessions@[j], self.sessions@[j]@),
            decreases self.sessions@.len() - i,
        {
            sessions.push(session_summary(&self.sessions[i]));
            i = i + 1;
        }
        let active_session = match &self.active_session {
            Some(id) => match position_of(&self.sessions, id.0.as_str()) {
                Some(k) => {
                    proof {
                        self.lemma_index_of(id.0@, k as int);
                    }
                    Some(session_view(&self.sessions[k]))
                },
                None => None,
            },
            None => None,
        };
        AppSnapshot { sessions, active_session }
    }

    proof fn lemma_index_of(&self, id: Seq<char>, k: int)
        requires
            self.wf(),
            0 <= k < self.sessions@.len(),
            self.sessions@[k].id.0@ == id,
        ensures
            self.index_of(id) == k,
            self.stores(id),
    {
        self.lemma_views();
        assert(self.sessions()[k].id == id);
        let c = self.index_of(id);
        assert(self.sessions()[c].id == id);
        if c != k {
            assert(self.sessions@[c].id.0@ == id);
            if c < k {
                assert(self.sessions@[c].id.0@ != self.sessions@[k].id.0@);
            } else {
                assert(self.sessions@[k].id.0@ != self.sessions@[c].id.0@);
            }
        }
    }

    /// Whether the single application-wide user turn is still in flight.
    pub fn turn_active(&self) -> (r: bool)
        ensures
            r == self.turn_session() is Some,
    {
        self.pending.is_some()
    }

    pub fn model_parameters(&self) -> (r: &ModelParameters)
        ensures
            *r == self.parameters(),
    {
        &self.model
    }

    pub fn execution_settings(&self) -> (r: &ExecutionSettings)
        ensures
            *r == self.limits(),
    {
        &self.execution
    }

    /// The stored session with identity `id`.
    pub fn session(&self, id: &SessionId) -> (r: Option<&StoredSession>)
        requires
            self.wf(),
        ensures
            match r {
                Some(s) => self.stores(id.0@) && s@ == self.sessions()[self.index_of(id.0@)],
                None => !self.stores(id.0@),
            },
    {
        proof {
            self.lemma_views();
        }
        match position_of(&self.sessions, id.0.as_str()) {
            Some(k) => {
                proof {
                    self.lemma_index_of(id.0@, k as int);
                }
                Some(&self.sessions[k])
            },
            None => None,
        }
    }

    /// Structured runtime information for the informational rail. `runtime` is the polled
    /// state of the running runtime, if one was started.
    pub fn runtime_view(&self, runtime: Option<Result<ModelRuntimeState, String>>, llama_version: String) -> (r: RuntimeView)
        requires
            self.wf(),
        ensures
            r.status@ == runtime_status(self.startup(), runtime),
            r.llama_version@ == llama_version@,
            r.context_size == self.parameters().context_size,
            ({
                let usage = match self.active() {
                    Some(id) => self.sessions()[self.index_of(id)].last_usage,
                    None => None,
                };
                &&& r.prompt_tokens == (match usage { Some(u) => Some(u.prompt_tokens), None => None::<u32> })
                &&& r.completion_tokens == (match usage { Some(u) => Some(u.completion_tokens), None => None::<u32> })
                &&& r.context_full == (usage matches Some(u) && (if u.prompt_tokens + u.completion_tokens
                    > u32::MAX { u32::MAX as int } else { u.prompt_tokens + u.completion_tokens })
                    >= self.parameters().context_size)
            }),
            match self.startup() {
                StartupModelSelection::Selected(m) => r.model_name matches Some(n) && n@ == m@.name,
                _ => r.model_name is None,
            },
    {
        proof {
            self.lemma_views();
        }
        let (model_name, status) = match &self.startup_model {
            StartupModelSelection::NoUsableModels => (None, String::from_str("No usable models in models/")),
            StartupModelSelection::Selected(model) => (
                Some(String::from_str(model.name())),
                String::from_str("RUNTIME NOT STARTED"),
            ),
            StartupModelSelection::SelectionRequired { .. } => (
                None,
                String::from_str("SELECT A STARTUP MODEL"),
            ),
        };
        let status = match runtime {
            None => status,
            Some(Ok(ModelRuntimeState::Starting)) => String::from_str("STARTING"),
            Some(Ok(ModelRuntimeState::Ready)) => String::from_str("READY"),
            Some(Ok(ModelRuntimeState::Failed(error))) => error,
            Some(Err(error)) => {
                let mut s = String::from_str("runtime poll failed: ");
                s.append(error.as_str());
                s
            },
        };
        let usage = match &self.active_session {
            Some(id) => match position_of(&self.sessions, id.0.as_str()) {
                Some(k) => {
                    proof {
                        self.lemma_index_of(id.0@, k as int);
                    }
                    self.sessions[k].last_usage
                },
                None => None,
            },
            None => None,
        };
        let context_size = self.model.context_size;
        let context_full = match usage {
            Some(u) => u.prompt_tokens.saturating_add(u.completion_tokens) >= context_size,
            None => false,
        };
        RuntimeView {
            model_name,
            status,
            llama_version,
            context_size,
            prompt_tokens: match usage {
                Some(u) => Some(u.prompt_tokens),
                None => None,
            },
            completion_tokens: match usage {
                Some(u) => Some(u.completion_tokens),
                None => None,
            },
            context_full,
        }
    }

    /// The models and initial cursor position for the startup selector.
    pub fn startup_model_selection(&self) -> (r: Option<StartupModelSelectionView>)
        ensures
            match self.startup() {
                StartupModelSelection::SelectionRequired { models, selected_index } => r matches Some(v)
                    && v.selected_index == selected_index && v.names@.len() == models@.len()
                    && forall|i: int| 0 <= i < models@.len() ==> (#[trigger] v.names@[i])@ == models@[i]@.name,
                _ => r is None,
            },
    {
        match &self.startup_model {
            StartupModelSelection::SelectionRequired { models, selected_index } => {
                let mut names: Vec<String> = Vec::new();
                let mut i: usize = 0;
                while i < models.len()
                    invariant
                        i <= models@.len(),
                        names@.len() == i,
                        forall|j: int| 0 <= j < i ==> (#[trigger] names@[j])@ == models@[j]@.name,
                    decreases models@.len() - i,
                {
                    names.push(String::from_str(models[i].name()));
                    i = i + 1;
                }
                Some(StartupModelSelectionView { names, selected_index: *selected_index })
            },
            _ => None,
        }
    }

    /// The blocking startup problem when no bundled model is usable.
    pub fn startup_error(&self) -> (r: Option<String>)
        ensures
            match self.startup() {
                StartupModelSelection::NoUsableModels => r matches Some(e) && e@ == "No usable .gguf model was found in models/."@,
                _ => r is None,
            },
    {
        match &self.startup_model {
            StartupModelSelection::NoUsableModels => Some(String::from_str("No usable .gguf model was found in models/.")),
            _ => None,
        }
    }

    /// Returns and clears the recoverable warnings collected while loading sessions.
    pub fn take_startup_warnings(&mut self) -> (r: Vec<String>)
        requires
            old(self).wf(),
        ensures
            final(self).wf(),
            strings_view(r@) == old(self).warnings(),
            final(self).warnings().len() == 0,
            final(self).sessions() == old(self).sessions(),
            final(self).active() == old(self).active(),
            final(self).turn_session() == old(self).turn_session(),
            final(self).limits() == old(self).limits(),
            final(self).parameters() == old(self).parameters(),
            final(self).startup() == old(self).startup(),
            final(self).calls_started() == old(self).calls_started(),
    {
        let mut taken: Vec<String> = Vec::new();
        std::mem::swap(&mut taken, &mut self.startup_warnings);
        assert(self.warnings() =~= Seq::<Seq<char>>::empty());
        taken
    }

    /// The model selected at startup, if one is.
    pub fn selected_model(&self) -> (r: Option<AvailableModel>)
        ensures
            match self.startup() {
                StartupModelSelection::Selected(m) => r matches Some(c) && c@ == m@,
                _ => r is None,
            },
    {
        match &self.startup_model {
            StartupModelSelection::Selected(model) => Some(model.duplicate()),
            _ => None,
        }
    }

    /// Confirms the model at `index` of the startup selector. Returns the model to start,
    /// or `None` when no selection is pending or the index is out of range.
    pub fn select_startup_model(&mut self, index: usize) -> (r: Option<AvailableModel>)
        requires
            old(self).wf(),
        ensures
            final(self).wf(),
            match old(self).startup() {
                StartupModelSelection::SelectionRequired { models, .. } => if index < models@.len() {
                    &&& r matches Some(m) && m@ == models@[index as int]@
                    &&& final(self).startup() matches StartupModelSelection::Selected(s) && s@ == models@[index as int]@
                } else {
                    r is None && final(self).startup() == old(self).startup()
                },
                _ => r is None && final(self).startup() == old(self).startup(),
            },
            final(self).sessions() == old(self).sessions(),
            final(self).active() == old(self).active(),
            final(self).turn_session() == old(self).turn_session(),
            final(self).limits() == old(self).limits(),
            final(self).parameters() == old(self).parameters(),
            final(self).warnings() == old(self).warnings(),
            final(self).calls_started() == old(self).calls_started(),
    {
        let chosen = match &self.startup_model {
            StartupModelSelection::SelectionRequired { models, .. } => if index < models.len() {
                Some(models[index].duplicate())
            } else {
                None
            },
            _ => None,
        };
        match chosen {
            Some(model) => {
                let started = model.duplicate();
                self.startup_model = StartupModelSelection::Selected(model);
                Some(started)
            },
            None => None,
        }
    }

    // -- sessions ----------------------------------------------------------------

    /// Whether a stored session already uses the identity `id`.
    pub fn session_id_in_use(&self, id: &SessionId) -> (r: bool)
        requires
            self.wf(),
        ensures
            r == self.stores(id.0@),
    {
        proof {
            self.lemma_views();
        }
        position_of(&self.sessions, id.0.as_str()).is_some()
    }

    /// Adds a newly persisted session at the end of the list and makes it active.
    /// Returns `None`, changing nothing, when its identity is already in use.
    pub fn add_session(&mut self, session: StoredSession) -> (r: Option<SessionSummary>)
        requires
            old(self).wf(),
        ensures
            final(self).wf(),
            old(self).stores(session@.id) ==> r is None && final(self).sessions() == old(self).sessions()
                && final(self).active() == old(self).active(),
            !old(self).stores(session@.id) ==> {
                &&& r matches Some(v) && summarises(v, session@)
                &&& final(self).sessions() == old(self).sessions().push(session@)
                &&& final(self).active() == Some(session@.id)
            },
            final(self).turn_session() == old(self).turn_session(),
            final(self).work() == old(self).work(),
            final(self).limits() == old(self).limits(),
            final(self).parameters() == old(self).parameters(),
            final(self).warnings() == old(self).warnings(),
            final(self).startup() == old(self).startup(),
            final(self).calls_started() == old(self).calls_started(),
    {
        proof {
            self.lemma_views();
        }
        if position_of(&self.sessions, session.id.0.as_str()).is_some() {
            return None;
        }
        let summary = session_summary(&session);
        let ghost before = self.sessions@;
        self.active_session = Some(session.id.duplicate());
        self.sessions.push(session);
        proof {
            assert(self.sessions@ == before.push(session));
            assert(self.sessions() =~= old(self).sessions().push(session@));
            assert(self.sessions@[before.len() as int].id.0@ == session.id.0@);
            assert forall|i: int, j: int| 0 <= i < j < self.sessions@.len() implies (#[trigger] self.sessions@[i]).id.0@
                != (#[trigger] self.sessions@[j]).id.0@ by {
                if j == before.len() {
                    assert(!has_id(before, session.id.0@));
                    assert(before[i] == self.sessions@[i]);
                }
            }
            assert forall|id: Seq<char>| has_id(before, id) implies has_id(self.sessions@, id) by {
                let k = choose|k: int| 0 <= k < before.len() && (#[trigger] before[k]).id.0@ == id;
                assert(self.sessions@[k] == before[k]);
            }
        }
        Some(summary)
    }

    /// Makes an existing session active by its stable identity.
    pub fn select_session(&mut self, id: &str) -> (r: bool)
        requires
            old(self).wf(),
        ensures
            final(self).wf(),
            r == old(self).stores(id@),
            r ==> final(self).active() == Some(id@),
            !r ==> final(self).active() == old(self).active(),
            final(self).sessions() == old(self).sessions(),
            final(self).turn_session() == old(self).turn_session(),
            final(self).work() == old(self).work(),
            final(self).limits() == old(self).limits(),
            final(self).parameters() == old(self).parameters(),
            final(self).warnings() == old(self).warnings(),
            final(self).startup() == old(self).startup(),
            final(self).calls_started() == old(self).calls_started(),
    {
        proof {
            self.lemma_views();
        }
        match position_of(&self.sessions, id) {
            Some(k) => {
                self.active_session = Some(self.sessions[k].id.duplicate());
                true
            },
            None => false,
        }
    }

    /// The session to delete for `id`: none when it does not exist or when it holds the
    /// in-flight turn, so that worker output always has a live target.
    pub fn deletable_session(&self, id: &str) -> (r: Option<SessionId>)
        requires
            self.wf(),
        ensures
            match r {
                Some(d) => d.0@ == id@ && self.stores(id@) && self.turn_session() != Some(id@),
                None => !self.stores(id@) || self.turn_session() == Some(id@),
            },
    {
        proof {
            self.lemma_views();
        }
        match position_of(&self.sessions, id) {
            None => None,
            Some(k) => {
                let busy = match &self.pending {
                    Some(turn) => str_eq(turn.session_id.0.as_str(), id),
                    None => false,
                };
                if busy {
                    None
                } else {
                    Some(self.sessions[k].id.duplicate())
                }
            },
        }
    }

    /// Removes a deleted session. When it was active, its successor in the list becomes
    /// active, else its predecessor, else none. Returns false, changing nothing, when the
    /// session does not exist or holds the in-flight turn.
    pub fn remove_session(&mut self, id: &str) -> (r: bool)
        requires
            old(self).wf(),
        ensures
            final(self).wf(),
            r == (old(self).stores(id@) && old(self).turn_session() != Some(id@)),
            !r ==> final(self).sessions() == old(self).sessions() && final(self).active() == old(self).active(),
            r ==> ({
                let i = old(self).index_of(id@);
                let rest = old(self).sessions().remove(i);
                &&& final(self).sessions() == rest
                &&& final(self).active() == if old(self).active() == Some(id@) {
                    if i < rest.len() {
                        Some(rest[i].id)
                    } else if i > 0 {
                        Some(rest[i - 1].id)
                    } else {
                        None
                    }
                } else {
                    old(self).active()
                }
            }),
            final(self).turn_session() == old(self).turn_session(),
            final(self).work() == old(self).work(),
            final(self).limits() == old(self).limits(),
            final(self).parameters() == old(self).parameters(),
            final(self).warnings() == old(self).warnings(),
            final(self).startup() == old(self).startup(),
            final(self).calls_started() == old(self).calls_started(),
    {
        proof {
            self.lemma_views();
        }
        let k = match position_of(&self.sessions, id) {
            None => return false,
            Some(k) => k,
        };
        proof {
            self.lemma_index_of(id@, k as int);
        }
        let busy = match &self.pending {
            Some(turn) => str_eq(turn.session_id.0.as_str(), id),
            None => false,
        };
        if busy {
            return false;
        }
        let was_active = match &self.active_session {
            Some(a) => str_eq(a.0.as_str(), id),
            None => false,
        };
        let ghost before = self.sessions@;
        let _removed = self.sessions.remove(k);
        if was_active {
            self.active_session = if k < self.sessions.len() {
                Some(self.sessions[k].id.duplicate())
            } else if k > 0 {
                Some(self.sessions[k - 1].id.duplicate())
            } else {
                None
            };
        }
        proof {
            assert(self.sessions@ == before.remove(k as int));
            assert(self.sessions() =~= old(self).sessions().remove(k as int));
            assert forall|i: int, j: int| 0 <= i < j < self.sessions@.len() implies (#[trigger] self.sessions@[i]).id.0@
                != (#[trigger] self.sessions@[j]).id.0@ by {
                let bi = if i < k { i } else { i + 1 };
                let bj = if j < k { j } else { j + 1 };
                assert(self.sessions@[i] == before[bi]);
                assert(self.sessions@[j] == before[bj]);
            }
            assert forall|x: Seq<char>| has_id(before, x) && x != id@ implies has_id(self.sessions@, x) by {
                let m = choose|m: int| 0 <= m < before.len() && (#[trigger] before[m]).id.0@ == x;
                if m < k {
                    assert(self.sessions@[m] == before[m]);
                } else {
                    assert(m != k);
                    assert(self.sessions@[m - 1] == before[m]);
                }
            }
            if self.active_session is Some {
                let a = self.active_session->Some_0;
                if was_active {
                    if k < self.sessions@.len() {
                        assert(self.sessions@[k as int].id.0@ == a.0@);
                    } else {
                        assert(self.sessions@[k - 1].id.0@ == a.0@);
                    }
                }
            }
        }
        true
    }

    /// Persists a changed copy of a stored session: replaces the session with the same
    /// identity, and drops a pending throttled write of it. Returns false, changing
    /// nothing, when no stored session has that identity.
    pub fn commit_session(&mut self, session: StoredSession) -> (r: bool)
        requires
            old(self).wf(),
        ensures
            final(self).wf(),
            r == old(self).stores(session@.id),
            r ==> final(self).sessions() == old(self).sessions().update(old(self).index_of(session@.id), session@),
            r ==> final(self).stores(session@.id),
            !r ==> final(self).sessions() == old(self).sessions(),
            r && (old(self).dirty() matches Some(d) && d.0 == session@.id) ==> final(self).dirty() is None,
            !(r && (old(self).dirty() matches Some(d) && d.0 == session@.id)) ==> final(self).dirty() == old(self).dirty(),
            final(self).active() == old(self).active(),
            final(self).turn_session() == old(self).turn_session(),
            final(self).work() == old(self).work(),
            final(self).boundary() == old(self).boundary(),
            final(self).calls_started() == old(self).calls_started(),
            final(self).limits() == old(self).limits(),
            final(self).parameters() == old(self).parameters(),
            final(self).warnings() == old(self).warnings(),
            final(self).startup() == old(self).startup(),
    {
        proof {
            self.lemma_views();
        }
        let k = match position_of(&self.sessions, session.id.0.as_str()) {
            None => return false,
            Some(k) => k,
        };
        proof {
            self.lemma_index_of(session.id.0@, k as int);
        }
        let clear = match &self.pending_write {
            Some(w) => str_eq(w.session_id.0.as_str(), session.id.0.as_str()),
            None => false,
        };
        if clear {
            self.pending_write = None;
        }
        let ghost before = self.sessions@;
        self.sessions.set(k, session);
        proof {
            assert(self.sessions() =~= old(self).sessions().update(k as int, session@));
            assert forall|i: int, j: int| 0 <= i < j < self.sessions@.len() implies (#[trigger] self.sessions@[i]).id.0@
                != (#[trigger] self.sessions@[j]).id.0@ by {
                assert(self.sessions@[i].id.0@ == before[i].id.0@);
                assert(self.sessions@[j].id.0@ == before[j].id.0@);
            }
            assert forall|x: Seq<char>| has_id(before, x) implies has_id(self.sessions@, x) by {
                let m = choose|m: int| 0 <= m < before.len() && (#[trigger] before[m]).id.0@ == x;
                assert(self.sessions@[m].id.0@ == before[m].id.0@);
            }
            assert(self.sessions()[k as int].id == session@.id);
        }
        true
    }

    /// A copy of the active session with `profile` toggled, to persist and then commit.
    /// `None` when no session is active.
    pub fn profile_toggled_session(&self, profile: &str) -> (r: Option<StoredSession>)
        requires
            self.wf(),
        ensures
            match self.active() {
                Some(id) => r matches Some(s) && s@ == with_profile_toggled(self.sessions()[self.index_of(id)], profile@),
                None => r is None,
            },
    {
        proof {
            self.lemma_views();
        }
        let id = match &self.active_session {
            Some(id) => id,
            None => return None,
        };
        let k = match position_of(&self.sessions, id.0.as_str()) {
            Some(k) => k,
            None => return None,
        };
        proof {
            self.lemma_index_of(id.0@, k as int);
        }
        let mut session = self.sessions[k].duplicate();
        let ghost s = session@;
        let mut i: usize = 0;
        let mut found = false;
        while i < session.profiles.len() && !found
            invariant
                i <= session.profiles@.len(),
                session@ == s,
                found ==> i < s.profiles.len() && s.profiles[i as int] == profile@,
                forall|j: int| 0 <= j < i ==> s.profiles[j] != profile@,
            decreases session.profiles@.len() - i + (if found { 0int } else { 1int }),
        {
            if str_eq(session.profiles[i].as_str(), profile) {
                found = true;
            } else {
                i = i + 1;
            }
        }
        if found {
            proof {
                assert(s.profiles[i as int] == profile@);
                assert(s.profiles.contains(profile@));
                s.profiles.index_of_first_ensures(profile@);
                let f = s.profiles.index_of_first(profile@)->Some_0;
                assert(f == i) by {
                    if f < i {
                        assert(s.profiles[f] != profile@);
                    }
                    if i < f {
                    }
                }
            }
            let _removed = session.profiles.remove(i);
            proof {
                assert(strings_view(session.profiles@) =~= s.profiles.remove(i as int));
            }
        } else {
            proof {
                assert(!s.profiles.contains(profile@));
                s.profiles.index_of_first_ensures(profile@);
            }
            session.profiles.push(String::from_str(profile));
            proof {
                assert(strings_view(session.profiles@) =~= s.profiles.push(profile@));
            }
        }
        Some(session)
    }

    // -- interruption -------------------------------------------------------------

    /// Stops the active model request or command. Reports what to cancel; nothing when no
    /// work is in flight or when it is already being stopped.
    pub fn interrupt(&mut self) -> (r: InterruptSignal)
        requires
            old(self).wf(),
        ensures
            final(self).wf(),
            (final(self).work(), r) == interrupt_step(old(self).work()),
            final(self).turn_session() == old(self).turn_session(),
            final(self).sessions() == old(self).sessions(),
            final(self).active() == old(self).active(),
            final(self).boundary() == old(self).boundary(),
            final(self).dirty() == old(self).dirty(),
            final(self).limits() == old(self).limits(),
            final(self).parameters() == old(self).parameters(),
            final(self).warnings() == old(self).warnings(),
            final(self).startup() == old(self).startup(),
            final(self).calls_started() == old(self).calls_started(),
    {
        let turn = match self.pending.take() {
            None => return InterruptSignal::Nothing,
            Some(t) => t,
        };
        let PendingTurn { session_id, work } = turn;
        let (work, signal) = match work {
            PendingWork::Model { cancelling } => if !cancelling {
                (PendingWork::Model { cancelling: true }, InterruptSignal::CancelModelRequest)
            } else {
                (PendingWork::Model { cancelling }, InterruptSignal::Nothing)
            },
            PendingWork::Command { call_id, remaining, cancelled } => if !cancelled {
                (PendingWork::Command { call_id, remaining, cancelled: true }, InterruptSignal::CancelCommand)
            } else {
                (PendingWork::Command { call_id, remaining, cancelled }, InterruptSignal::Nothing)
            },
        };
        self.pending = Some(PendingTurn { session_id, work });
        signal
    }

    // -- the user turn ------------------------------------------------------------

    /// The session a new user turn goes to: the active one, unless a turn is in flight.
    pub fn user_turn_target(&self) -> (r: Option<SessionId>)
        ensures
            match r {
                Some(id) => self.turn_session() is None && self.active() == Some(id.0@),
                None => self.turn_session() is Some || self.active() is None,
            },
    {
        if self.pending.is_some() {
            return None;
        }
        match &self.active_session {
            Some(id) => Some(id.duplicate()),
            None => None,
        }
    }

    /// A copy of session `id` with the user's message appended, to persist and then commit.
    /// A session without messages is titled by the message.
    pub fn session_with_user_message(&self, id: &SessionId, content: String) -> (r: Option<StoredSession>)
        requires
            self.wf(),
        ensures
            match r {
                Some(s) => self.stores(id.0@) && s@ == with_user_message(self.sessions()[self.index_of(id.0@)], content@),
                None => !self.stores(id.0@),
            },
    {
        proof {
            self.lemma_views();
        }
        let k = match position_of(&self.sessions, id.0.as_str()) {
            Some(k) => k,
            None => return None,
        };
        proof {
            self.lemma_index_of(id.0@, k as int);
        }
        let mut session = self.sessions[k].duplicate();
        let ghost s = session@;
        if session.messages.len() == 0 {
            session.title = title_from_first_message(content.as_str());
        }
        session.messages.push(StoredMessage::plain(MessageRole::User, content));
        proof {
            assert(session@.messages =~= s.messages.push(plain_message(MessageRole::User, content@)));
        }
        Some(session)
    }

    /// Starts the turn of a committed user message: the count of commands started in this
    /// user turn restarts, and a model request for `id` begins when the runtime is running.
    /// Returns whether the request began. Nothing changes when a turn is already in flight.
    pub fn begin_user_turn(&mut self, id: &SessionId, runtime_running: bool) -> (r: bool)
        requires
            old(self).wf(),
        ensures
            final(self).wf(),
            old(self).turn_session() is Some ==> !r && final(self).calls_started() == old(self).calls_started(),
            old(self).turn_session() is None ==> final(self).calls_started() == 0,
            r == (old(self).turn_session() is None && runtime_running && old(self).stores(id.0@)),
            r ==> final(self).turn_session() == Some(id.0@) && final(self).work() == Some(WorkSpec::Model { cancelling: false }),
            !r ==> final(self).turn_session() == old(self).turn_session() && final(self).work() == old(self).work(),
            final(self).sessions() == old(self).sessions(),
            final(self).active() == old(self).active(),
            final(self).boundary() == old(self).boundary(),
            final(self).dirty() == old(self).dirty(),
            final(self).limits() == old(self).limits(),
            final(self).parameters() == old(self).parameters(),
            final(self).warnings() == old(self).warnings(),
            final(self).startup() == old(self).startup(),
    {
        if self.pending.is_some() {
            return false;
        }
        self.tool_calls_started = 0;
        self.begin_model_request(id, runtime_running)
    }

    /// Begins a model request for the session `id` when the runtime is running and no turn
    /// is in flight. Returns whether it began.
    pub fn begin_model_request(&mut self, id: &SessionId, runtime_running: bool) -> (r: bool)
        requires
            old(self).wf(),
        ensures
            final(self).wf(),
            r == (old(self).turn_session() is None && runtime_running && old(self).stores(id.0@)),
            r ==> final(self).turn_session() == Some(id.0@) && final(self).work() == Some(WorkSpec::Model { cancelling: false }),
            !r ==> final(self).turn_session() == old(self).turn_session() && final(self).work() == old(self).work(),
            final(self).sessions() == old(self).sessions(),
            final(self).active() == old(self).active(),
            final(self).boundary() == old(self).boundary(),
            final(self).dirty() == old(self).dirty(),
            final(self).calls_started() == old(self).calls_started(),
            final(self).limits() == old(self).limits(),
            final(self).parameters() == old(self).parameters(),
            final(self).warnings() == old(self).warnings(),
            final(self).startup() == old(self).startup(),
    {
        proof {
            self.lemma_views();
        }
        if self.pending.is_some() || !runtime_running {
            return false;
        }
        if position_of(&self.sessions, id.0.as_str()).is_none() {
            return false;
        }
        self.pending = Some(PendingTurn { session_id: id.duplicate(), work: PendingWork::Model { cancelling: false } });
        true
    }

    // -- polling the in-flight turn --------------------------------------------------

    /// Decides the next polling step. A throttled write that is due comes first; then a
    /// finished model request moves on (tool calls are recorded, any other ending is
    /// persisted and closes the turn); otherwise the worker is asked for its next event.
    pub fn next_step(&self, now_ms: u64) -> (r: PollStep)
        requires
            self.wf(),
        ensures
            match r {
                PollStep::Idle => self.turn_session() is None,
                PollStep::WriteSession(s) => self.dirty() matches Some(d) && self.stores(d.0)
                    && s@ == self.sessions()[self.index_of(d.0)]
                    && (now_ms >= d.1 || (self.boundary() is Some && !(self.boundary() matches Some(BoundarySpec::ToolCalls(_))))),
                PollStep::WriteToolCalls(s) => {
                    &&& !(self.dirty() matches Some(d) && now_ms >= d.1)
                    &&& self.boundary() matches Some(BoundarySpec::ToolCalls(calls))
                    &&& self.turn_session() matches Some(id)
                    &&& s@ == tool_call_plan(self.sessions()[self.index_of(id)], calls, self.calls_started(), self.limits().max_tool_calls_per_turn as nat).0
                },
                PollStep::FinishTurn => self.dirty() is None && self.boundary() is Some
                    && !(self.boundary() matches Some(BoundarySpec::ToolCalls(_))),
                PollStep::Receive => !(self.dirty() matches Some(d) && now_ms >= d.1) && self.boundary() is None
                    && self.turn_session() is Some,
            },
            self.dirty() matches Some(d) && now_ms >= d.1 ==> r is WriteSession,
            self.turn_session() is None ==> r is Idle,
    {
        proof {
            self.lemma_views();
        }
        if let Some(w) = &self.pending_write {
            if now_ms >= w.due_at_ms {
                return PollStep::WriteSession(self.dirty_session_copy());
            }
        }
        match &self.boundary {
            Some(TurnBoundary::ToolCalls(calls)) => {
                let (session, _runnable, _started) = self.plan_tool_calls(calls.as_slice());
                PollStep::WriteToolCalls(session)
            },
            Some(_) => {
                if self.pending_write.is_some() {
                    PollStep::WriteSession(self.dirty_session_copy())
                } else {
                    PollStep::FinishTurn
                }
            },
            None => if self.pending.is_some() {
                PollStep::Receive
            } else {
                PollStep::Idle
            },
        }
    }

    /// A copy of the session whose write is pending.
    fn dirty_session_copy(&self) -> (r: StoredSession)
        requires
            self.wf(),
            self.pending_write is Some,
        ensures
            self.dirty() matches Some(d) && self.stores(d.0) && r@ == self.sessions()[self.index_of(d.0)],
    {
        proof {
            self.lemma_views();
        }
        let w = self.pending_write.as_ref().unwrap();
        let k = position_of(&self.sessions, w.session_id.0.as_str()).unwrap();
        proof {
            self.lemma_index_of(w.session_id.0@, k as int);
        }
        self.sessions[k].duplicate()
    }

    /// The session of the in-flight turn with `calls` recorded, the runnable calls, and
    /// the new count of started calls.
    fn plan_tool_calls(&self, calls: &[ToolCall]) -> (r: (StoredSession, Vec<ToolCall>, usize))
        requires
            self.wf(),
            self.pending is Some,
        ensures
            self.turn_session() matches Some(id) && ({
                let p = tool_call_plan(self.sessions()[self.index_of(id)], calls_view(calls@), self.calls_started(), self.limits().max_tool_calls_per_turn as nat);
                &&& r.0@ == p.0
                &&& calls_view(r.1@) == p.1
                &&& r.2 as nat == p.2
            }),
    {
        proof {
            self.lemma_views();
        }
        let turn = self.pending.as_ref().unwrap();
        let k = position_of(&self.sessions, turn.session_id.0.as_str()).unwrap();
        proof {
            self.lemma_index_of(turn.session_id.0@, k as int);
        }
        let mut session = self.sessions[k].duplicate();
        let mut runnable: Vec<ToolCall> = Vec::new();
        let mut started = self.tool_calls_started;
        let max = self.execution.max_tool_calls_per_turn;
        let ghost s0 = session@;
        let mut i: usize = 0;
        while i < calls.len()
            invariant
                i <= calls@.len(),
                max == self.execution.max_tool_calls_per_turn,
                ({
                    let p = tool_call_plan(s0, calls_view(calls@.subrange(0, i as int)), self.tool_calls_started as nat, max as nat);
                    &&& session@ == p.0
                    &&& calls_view(runnable@) == p.1
                    &&& started as nat == p.2
                }),
                started <= if self.tool_calls_started > max { self.tool_calls_started } else { max },
            decreases calls@.len() - i,
        {
            let call = &calls[i];
            let ghost xs = calls_view(calls@.subrange(0, i as int));
            let ghost xs1 = calls_view(calls@.subrange(0, i + 1));
            let ghost prev = tool_call_plan(s0, xs, self.tool_calls_started as nat, max as nat);
            let ghost run_before = runnable@;
            proof {
                assert(xs1.drop_last() =~= xs);
                assert(xs1.last() == call@);
            }
            let mut exec = StoredMessage::plain(MessageRole::Exec, call.command.clone());
            exec.tool_call_id = call.id.clone();
            proof {
                assert(exec@ == exec_message(call@));
            }
            session.messages.push(exec);
            let ghost with_exec = session@;
            proof {
                assert(with_exec.messages =~= prev.0.messages.push(exec_message(call@)));
            }
            if started < max {
                started = started + 1;
                runnable.push(call.duplicate());
                proof {
                    assert(calls_view(runnable@) =~= calls_view(run_before).push(call@));
                }
            } else {
                let mut stderr = String::from_str("Tool call was not run: the limit of ");
                push_decimal(&mut stderr, max as u128);
                stderr.append(" calls per user turn was reached.");
                let result = ExecResult {
                    stdout: String::new(),
                    stderr,
                    status: String::from_str("tool call limit reached"),
                    exit_code: None,
                    duration_ms: 0,
                    timed_out: false,
                };
                proof {
                    assert(result@ == limit_result(max as nat));
                }
                push_exec_result(&mut session, result, call.id.clone());
            }
            proof {
                let next = tool_call_plan(s0, xs1, self.tool_calls_started as nat, max as nat);
                assert(session@.messages =~= next.0.messages);
                assert(session@ == next.0);
            }
            i = i + 1;
        }
        proof {
            assert(calls@.subrange(0, calls@.len() as int) =~= calls@);
        }
        (session, runnable, started)
    }

    /// Reports that `id` was written: its pending throttled write is done.
    pub fn session_written(&mut self, id: &SessionId)
        requires
            old(self).wf(),
        ensures
            final(self).wf(),
            (old(self).dirty() matches Some(d) && d.0 == id.0@) ==> final(self).dirty() is None,
            !(old(self).dirty() matches Some(d) && d.0 == id.0@) ==> final(self).dirty() == old(self).dirty(),
            final(self).sessions() == old(self).sessions(),
            final(self).active() == old(self).active(),
            final(self).turn_session() == old(self).turn_session(),
            final(self).work() == old(self).work(),
            final(self).boundary() == old(self).boundary(),
            final(self).calls_started() == old(self).calls_started(),
            final(self).limits() == old(self).limits(),
            final(self).parameters() == old(self).parameters(),
            final(self).warnings() == old(self).warnings(),
            final(self).startup() == old(self).startup(),
    {
        let clear = match &self.pending_write {
            Some(w) => str_eq(w.session_id.0.as_str(), id.0.as_str()),
            None => false,
        };
        if clear {
            self.pending_write = None;
        }
    }

    /// Installs the session with the recorded tool calls (after it was written) and moves the
    /// turn on: the first runnable call starts, or, when none may run, the model is asked
    /// again. Nothing changes and the turn stops when no tool calls are recorded.
    pub fn tool_calls_written(&mut self) -> (r: NextWork)
        requires
            old(self).wf(),
        ensures
            final(self).wf(),
            !(old(self).boundary() matches Some(BoundarySpec::ToolCalls(_))) ==> r is Stop && final(self).sessions()
                == old(self).sessions() && final(self).turn_session() == old(self).turn_session()
                && final(self).boundary() == old(self).boundary(),
            old(self).boundary() matches Some(BoundarySpec::ToolCalls(calls)) ==> old(self).turn_session() matches Some(id) && ({
                let p = tool_call_plan(old(self).sessions()[old(self).index_of(id)], calls, old(self).calls_started(), old(self).limits().max_tool_calls_per_turn as nat);
                &&& final(self).sessions() == old(self).sessions().update(old(self).index_of(id), p.0)
                &&& final(self).boundary() is None
                &&& final(self).dirty() is None
                &&& final(self).calls_started() == p.2
                &&& if p.1.len() > 0 {
                    &&& r matches NextWork::RunCommand(c) && c@ == p.1[0]
                    &&& final(self).turn_session() == Some(id)
                    &&& final(self).work() == Some(WorkSpec::Command { call_id: p.1[0].id, remaining: p.1.drop_first(), cancelled: false })
                } else {
                    &&& r matches NextWork::RequestModel(sid) && sid.0@ == id
                    &&& final(self).turn_session() is None
                }
            }),
            final(self).active() == old(self).active(),
            final(self).limits() == old(self).limits(),
            final(self).parameters() == old(self).parameters(),
            final(self).warnings() == old(self).warnings(),
            final(self).startup() == old(self).startup(),
    {
        let calls = match &self.boundary {
            Some(TurnBoundary::ToolCalls(calls)) => duplicate_calls(calls.as_slice()),
            _ => return NextWork::Stop,
        };
        let (session, runnable, started) = self.plan_tool_calls(calls.as_slice());
        let id = self.pending.as_ref().unwrap().session_id.duplicate();
        proof {
            self.lemma_views();
            lemma_tool_call_plan_keeps(
                self.sessions()[self.index_of(id.0@)],
                calls_view(calls@),
                self.calls_started(),
                self.limits().max_tool_calls_per_turn as nat,
            );
        }
        proof {
            assert(self.stores(id.0@));
            assert(session@.id == id.0@);
        }
        self.boundary = None;
        let committed = self.commit_session(session);
        proof {
            self.lemma_views();
            assert(committed);
            assert(self.stores(id.0@));
            assert(self.dirty() is None);
        }
        self.pending = None;
        self.tool_calls_started = started;
        if runnable.len() > 0 {
            let mut runnable = runnable;
            let ghost rv = calls_view(runnable@);
            let first = runnable.remove(0);
            proof {
                assert(calls_view(runnable@) =~= rv.drop_first());
            }
            self.pending = Some(PendingTurn {
                session_id: id,
                work: PendingWork::Command { call_id: first.id.clone(), remaining: runnable, cancelled: false },
            });
            NextWork::RunCommand(first)
        } else {
            NextWork::RequestModel(id)
        }
    }

    /// Closes the turn once its model request ended without tool calls: complete and
    /// cancelled requests end it successfully; a failed request or a lost worker end it with
    /// an error. A throttled write still pending is dropped (`next_step` asks for it first).
    /// Nothing changes when no such ending is recorded.
    pub fn finish_turn(&mut self) -> (r: Result<(), String>)
        requires
            old(self).wf(),
        ensures
            final(self).wf(),
            final(self).sessions() == old(self).sessions(),
            final(self).active() == old(self).active(),
            match old(self).boundary() {
                None => r is Ok && final(self).turn_session() == old(self).turn_session() && final(self).boundary() is None,
                Some(BoundarySpec::ToolCalls(_)) => r is Ok && final(self).turn_session() == old(self).turn_session()
                    && final(self).boundary() == old(self).boundary(),
                Some(b) => {
                    &&& final(self).turn_session() is None
                    &&& final(self).boundary() is None
                    &&& final(self).dirty() is None
                    &&& match turn_error(b) {
                        Some(e) => r matches Err(m) && m@ == e,
                        None => r is Ok,
                    }
                },
            },
            final(self).limits() == old(self).limits(),
            final(self).parameters() == old(self).parameters(),
            final(self).warnings() == old(self).warnings(),
            final(self).startup() == old(self).startup(),
            final(self).calls_started() == old(self).calls_started(),
    {
        let boundary = match self.boundary.take() {
            None => return Ok(()),
            Some(b) => b,
        };
        match boundary {
            TurnBoundary::ToolCalls(calls) => {
                self.boundary = Some(TurnBoundary::ToolCalls(calls));
                Ok(())
            },
            TurnBoundary::Complete => {
                self.pending_write = None;
                self.pending = None;
                Ok(())
            },
            TurnBoundary::Cancelled => {
                self.pending_write = None;
                self.pending = None;
                Ok(())
            },
            TurnBoundary::Failed(error) => {
                self.pending_write = None;
                self.pending = None;
                let mut m = String::from_str("model request failed: ");
                m.append(error.as_str());
                Err(m)
            },
            TurnBoundary::Disconnected => {
                self.pending_write = None;
                self.pending = None;
                Err(String::from_str("turn worker disconnected"))
            },
        }
    }

    /// Marks the turn's session as holding unpersisted output; a write is due after the
    /// throttle interval unless one is already pending.
    fn mark_dirty(&mut self, now_ms: u64)
        requires
            old(self).wf(),
            old(self).pending is Some,
        ensures
            final(self).wf(),
            final(self).dirty() == dirty_after(old(self).dirty(), old(self).turn_session()->Some_0, now_ms),
            final(self).sessions() == old(self).sessions(),
            final(self).active() == old(self).active(),
            final(self).turn_session() == old(self).turn_session(),
            final(self).work() == old(self).work(),
            final(self).boundary() == old(self).boundary(),
            final(self).calls_started() == old(self).calls_started(),
            final(self).limits() == old(self).limits(),
            final(self).parameters() == old(self).parameters(),
            final(self).warnings() == old(self).warnings(),
            final(self).startup() == old(self).startup(),
    {
        if self.pending_write.is_none() {
            let id = self.pending.as_ref().unwrap().session_id.duplicate();
            self.pending_write = Some(PendingSessionWrite {
                session_id: id,
                due_at_ms: now_ms.saturating_add(STREAM_PERSIST_INTERVAL_MS),
            });
        }
    }

    /// Records one event of the turn's worker. Deltas extend the session in memory and make
    /// it dirty; usage is recorded and must be persisted at once; the end of a model request
    /// is recorded as the turn's boundary; a lost worker ends the request (as cancelled when
    /// the user interrupted it). Events of a request the user interrupted are dropped. A
    /// finished command yields the session with its result to persist.
    pub fn observe(&mut self, event: WorkerEvent, now_ms: u64) -> (r: Observation)
        requires
            old(self).wf(),
        ensures
            final(self).wf(),
            final(self).active() == old(self).active(),
            final(self).turn_session() == old(self).turn_session(),
            final(self).work() == old(self).work(),
            final(self).calls_started() == old(self).calls_started(),
            old(self).turn_session() is None ==> r is Idle && final(self).sessions() == old(self).sessions()
                && final(self).boundary() == old(self).boundary() && final(self).dirty() == old(self).dirty(),
            old(self).turn_session() matches Some(id) ==> match event {
                WorkerEvent::Empty => r is Idle && final(self).sessions() == old(self).sessions()
                    && final(self).boundary() == old(self).boundary() && final(self).dirty() == old(self).dirty(),
                WorkerEvent::Disconnected => r is Continue && final(self).sessions() == old(self).sessions()
                    && final(self).dirty() == old(self).dirty()
                    && final(self).boundary() == Some(disconnect_boundary(old(self).work())),
                WorkerEvent::Model(ev) => if old(self).work() == Some(WorkSpec::Model { cancelling: false }) {
                    match ev {
                        ModelEvent::Delta { content, reasoning_content } => {
                            &&& r is Continue
                            &&& final(self).sessions() == old(self).sessions().update(
                                old(self).index_of(id),
                                with_delta(old(self).sessions()[old(self).index_of(id)], content@, reasoning_content@),
                            )
                            &&& final(self).dirty() == dirty_after(old(self).dirty(), id, now_ms)
                            &&& final(self).boundary() == old(self).boundary()
                        },
                        ModelEvent::Usage(u) => {
                            let s = StoredSessionSpec { last_usage: Some(u), ..old(self).sessions()[old(self).index_of(id)] };
                            &&& r matches Observation::WriteSession(w) && w@ == s
                            &&& final(self).sessions() == old(self).sessions().update(old(self).index_of(id), s)
                            &&& final(self).dirty() == dirty_after(old(self).dirty(), id, now_ms)
                            &&& final(self).boundary() == old(self).boundary()
                        },
                        ModelEvent::ToolCalls(calls) => r is Continue && final(self).sessions() == old(self).sessions()
                            && final(self).dirty() == old(self).dirty()
                            && final(self).boundary() == Some(BoundarySpec::ToolCalls(calls_view(calls@))),
                        ModelEvent::Complete => r is Continue && final(self).sessions() == old(self).sessions()
                            && final(self).dirty() == old(self).dirty()
                            && final(self).boundary() == Some(BoundarySpec::Complete),
                        ModelEvent::Failed(e) => r is Continue && final(self).sessions() == old(self).sessions()
                            && final(self).dirty() == old(self).dirty()
                            && final(self).boundary() == Some(BoundarySpec::Failed(e@)),
                    }
                } else {
                    r is Continue && final(self).sessions() == old(self).sessions()
                        && final(self).boundary() == old(self).boundary() && final(self).dirty() == old(self).dirty()
                },
                WorkerEvent::Command(result) => final(self).sessions() == old(self).sessions()
                    && final(self).boundary() == old(self).boundary() && final(self).dirty() == old(self).dirty()
                    && match old(self).work() {
                        Some(WorkSpec::Command { call_id, remaining, cancelled }) => r matches Observation::WriteResults(w)
                            && w@ == with_skipped(
                                StoredSessionSpec {
                                    messages: old(self).sessions()[old(self).index_of(id)].messages.push(exec_result_message(result@, call_id)),
                                    ..old(self).sessions()[old(self).index_of(id)]
                                },
                                if cancelled { remaining } else { Seq::empty() },
                            ),
                        _ => r is Continue,
                    },
            },
            final(self).limits() == old(self).limits(),
            final(self).parameters() == old(self).parameters(),
            final(self).warnings() == old(self).warnings(),
            final(self).startup() == old(self).startup(),
    {
        proof {
            self.lemma_views();
        }
        let (id, cancelling) = match &self.pending {
            None => return Observation::Idle,
            Some(turn) => (
                turn.session_id.duplicate(),
                match &turn.work {
                    PendingWork::Model { cancelling } => Some(*cancelling),
                    PendingWork::Command { .. } => None,
                },
            ),
        };
        let k = position_of(&self.sessions, id.0.as_str()).unwrap();
        proof {
            self.lemma_index_of(id.0@, k as int);
        }
        match event {
            WorkerEvent::Empty => Observation::Idle,
            WorkerEvent::Disconnected => {
                self.boundary = Some(if cancelling == Some(true) {
                    TurnBoundary::Cancelled
                } else {
                    TurnBoundary::Disconnected
                });
                Observation::Continue
            },
            WorkerEvent::Model(ev) => {
                if cancelling != Some(false) {
                    return Observation::Continue;
                }
                match ev {
                    ModelEvent::Delta { content, reasoning_content } => {
                        let mut session = self.sessions[k].duplicate();
                        append_delta(&mut session, content.as_str(), reasoning_content.as_str());
                        self.replace_session(k, session);
                        self.mark_dirty(now_ms);
                        Observation::Continue
                    },
                    ModelEvent::Usage(u) => {
                        let mut session = self.sessions[k].duplicate();
                        session.last_usage = Some(u);
                        let copy = session.duplicate();
                        self.replace_session(k, session);
                        self.mark_dirty(now_ms);
                        Observation::WriteSession(copy)
                    },
                    ModelEvent::ToolCalls(calls) => {
                        self.boundary = Some(TurnBoundary::ToolCalls(calls));
                        Observation::Continue
                    },
                    ModelEvent::Complete => {
                        self.boundary = Some(TurnBoundary::Complete);
                        Observation::Continue
                    },
                    ModelEvent::Failed(error) => {
                        self.boundary = Some(TurnBoundary::Failed(error));
                        Observation::Continue
                    },
                }
            },
            WorkerEvent::Command(result) => {
                let turn = self.pending.as_ref().unwrap();
                match &turn.work {
                    PendingWork::Command { call_id, remaining, cancelled } => {
                        let mut session = self.sessions[k].duplicate();
                        push_exec_result(&mut session, result, call_id.clone());
                        if *cancelled {
                            push_skipped(&mut session, remaining.as_slice());
                        } else {
                            push_skipped(&mut session, &[]);
                        }
                        Observation::WriteResults(session)
                    },
                    PendingWork::Model { .. } => Observation::Continue,
                }
            },
        }
    }

    /// Replaces the session at index `k`, keeping its identity.
    fn replace_session(&mut self, k: usize, session: StoredSession)
        requires
            old(self).wf(),
            k < old(self).sessions().len(),
            session@.id == old(self).sessions()[k as int].id,
        ensures
            final(self).wf(),
            final(self).sessions() == old(self).sessions().update(k as int, session@),
            final(self).active() == old(self).active(),
            final(self).turn_session() == old(self).turn_session(),
            final(self).work() == old(self).work(),
            final(self).boundary() == old(self).boundary(),
            final(self).dirty() == old(self).dirty(),
            final(self).calls_started() == old(self).calls_started(),
            final(self).limits() == old(self).limits(),
            final(self).parameters() == old(self).parameters(),
            final(self).warnings() == old(self).warnings(),
            final(self).startup() == old(self).startup(),
    {
        proof {
            self.lemma_views();
        }
        let ghost before = self.sessions@;
        self.sessions.set(k, session);
        proof {
            assert(self.sessions() =~= old(self).sessions().update(k as int, session@));
            assert forall|i: int, j: int| 0 <= i < j < self.sessions@.len() implies (#[trigger] self.sessions@[i]).id.0@
                != (#[trigger] self.sessions@[j]).id.0@ by {
                assert(self.sessions@[i].id.0@ == before[i].id.0@);
                assert(self.sessions@[j].id.0@ == before[j].id.0@);
            }
            assert forall|x: Seq<char>| has_id(before, x) implies has_id(self.sessions@, x) by {
                let m = choose|m: int| 0 <= m < before.len() && (#[trigger] before[m]).id.0@ == x;
                assert(self.sessions@[m].id.0@ == before[m].id.0@);
            }
        }
    }

    /// Installs the session with a finished command's result (after it was written) and moves
    /// the turn on: an interrupted turn stops; otherwise the next call runs, or the model is
    /// asked again. Nothing changes and the turn stops when no command is running for the
    /// session's identity, or when the turn already ended otherwise.
    pub fn results_written(&mut self, session: StoredSession) -> (r: NextWork)
        requires
            old(self).wf(),
        ensures
            final(self).wf(),
            final(self).active() == old(self).active(),
            final(self).boundary() == old(self).boundary(),
            !(old(self).turn_session() == Some(session@.id) && old(self).boundary() is None) ==> r is Stop
                && final(self).sessions() == old(self).sessions()
                && final(self).turn_session() == old(self).turn_session() && final(self).work() == old(self).work(),
            old(self).turn_session() == Some(session@.id) && old(self).boundary() is None ==> match old(self).work() {
                Some(WorkSpec::Command { call_id: _, remaining, cancelled }) => {
                    &&& final(self).sessions() == old(self).sessions().update(old(self).index_of(session@.id), session@)
                    &&& final(self).dirty() is None
                    &&& if cancelled {
                        r is Stop && final(self).turn_session() is None
                    } else if remaining.len() > 0 {
                        &&& r matches NextWork::RunCommand(c) && c@ == remaining[0]
                        &&& final(self).turn_session() == Some(session@.id)
                        &&& final(self).work() == Some(WorkSpec::Command { call_id: remaining[0].id, remaining: remaining.drop_first(), cancelled: false })
                    } else {
                        &&& r matches NextWork::RequestModel(sid) && sid.0@ == session@.id
                        &&& final(self).turn_session() is None
                    }
                },
                _ => r is Stop && final(self).sessions() == old(self).sessions()
                    && final(self).turn_session() == old(self).turn_session() && final(self).work() == old(self).work(),
            },
            final(self).limits() == old(self).limits(),
            final(self).parameters() == old(self).parameters(),
            final(self).warnings() == old(self).warnings(),
            final(self).startup() == old(self).startup(),
            final(self).calls_started() == old(self).calls_started(),
    {
        let runs_command = self.boundary.is_none() && match &self.pending {
            Some(turn) => match &turn.work {
                PendingWork::Command { .. } => str_eq(turn.session_id.0.as_str(), session.id.0.as_str()),
                _ => false,
            },
            None => false,
        };
        if !runs_command {
            return NextWork::Stop;
        }
        let turn = self.pending.take().unwrap();
        let PendingTurn { session_id, work } = turn;
        let ghost turn_id = session_id.0@;
        self.pending = Some(PendingTurn { session_id, work: PendingWork::Model { cancelling: false } });
        proof {
            self.lemma_views();
            assert(self.stores(turn_id));
            assert(session@.id == turn_id);
        }
        let committed = self.commit_session(session);
        proof {
            self.lemma_views();
            assert(committed);
            assert(self.stores(turn_id));
            assert(self.dirty() is None);
        }
        let id = self.pending.as_ref().unwrap().session_id.duplicate();
        self.pending = None;
        match work {
            PendingWork::Command { call_id, remaining, cancelled } => {
                if cancelled {
                    NextWork::Stop
                } else if remaining.len() > 0 {
                    let mut remaining = remaining;
                    let ghost rv = calls_view(remaining@);
                    let first = remaining.remove(0);
                    proof {
                        assert(calls_view(remaining@) =~= rv.drop_first());
                    }
                    self.pending = Some(PendingTurn {
                        session_id: id,
                        work: PendingWork::Command { call_id: first.id.clone(), remaining, cancelled: false },
                    });
                    NextWork::RunCommand(first)
                } else {
                    NextWork::RequestModel(id)
                }
            },
            PendingWork::Model { .. } => NextWork::Stop,
        }
    }
}

/// Extends the trailing model message of a session with a streamed delta, or starts one.
pub fn append_delta(session: &mut StoredSession, content: &str, reasoning_content: &str)
    ensures
        final(session)@ == with_delta(old(session)@, content@, reasoning_content@),
{
    let ghost s = session@;
    let n = session.messages.len();
    let last_is_model = n > 0 && session.messages[n - 1].role == MessageRole::Model;
    if !last_is_model {
        session.messages.push(StoredMessage::plain(MessageRole::Model, String::new()));
    }
    let n = session.messages.len();
    let mut last = session.messages.pop().unwrap();
    last.content.append(content);
    last.reasoning_content.append(reasoning_content);
    session.messages.push(last);
    proof {
        if s.messages.len() > 0 && s.messages.last().role == MessageRole::Model {
            assert(session@.messages =~= with_delta(s, content@, reasoning_content@).messages);
        } else {
            assert(session@.messages =~= with_delta(s, content@, reasoning_content@).messages);
        }
    }
}

/// Records an interrupted result for each skipped call.
pub fn push_skipped(session: &mut StoredSession, skipped: &[ToolCall])
    ensures
        final(session)@ == with_skipped(old(session)@, calls_view(skipped@)),
{
    let ghost s = session@;
    let mut i: usize = 0;
    while i < skipped.len()
        invariant
            i <= skipped@.len(),
            session@ == with_skipped(s, calls_view(skipped@.subrange(0, i as int))),
        decreases skipped@.len() - i,
    {
        proof {
            assert(calls_view(skipped@.subrange(0, i + 1)).drop_last() =~= calls_view(skipped@.subrange(0, i as int)));
            assert(calls_view(skipped@.subrange(0, i + 1)).last() == skipped@[i as int]@);
        }
        let result = ExecResult {
            stdout: String::new(),
            stderr: String::from_str("Tool call was not run because the user interrupted the turn."),
            status: String::from_str("not run: interrupted"),
            exit_code: None,
            duration_ms: 0,
            timed_out: false,
        };
        push_exec_result(session, result, skipped[i].id.clone());
        i = i + 1;
    }
    proof {
        assert(skipped@.subrange(0, skipped@.len() as int) =~= skipped@);
    }
}

// ---------------------------------------------------------------------------
// Laws of the turn
// ---------------------------------------------------------------------------

/// A second interruption changes nothing: the work is already being stopped.
pub proof fn law_second_interrupt_does_nothing(w: Option<WorkSpec>)
    ensures
        interrupt_step(interrupt_step(w).0) == (interrupt_step(w).0, InterruptSignal::Nothing),
{
}

/// An interrupted model request stays the turn's work until its stream closes, and then
/// ends the turn without an error; a stream that closes on its own ends it with one.
pub proof fn law_interrupted_request_ends_without_error()
    ensures
        interrupt_step(Some(WorkSpec::Model { cancelling: false })).0 is Some,
        disconnect_boundary(interrupt_step(Some(WorkSpec::Model { cancelling: false })).0) == BoundarySpec::Cancelled,
        turn_error(BoundarySpec::Cancelled) is None,
        disconnect_boundary(Some(WorkSpec::Model { cancelling: false })) == BoundarySpec::Disconnected,
        turn_error(BoundarySpec::Disconnected) == Some("turn worker disconnected"@),
{
}

/// After an interruption the turn's work is never a running model request, so the late
/// events of the interrupted stream change nothing (see [`Control::observe`]).
pub proof fn law_late_events_are_ignored_after_an_interrupt(w: Option<WorkSpec>)
    ensures
        interrupt_step(w).0 != Some(WorkSpec::Model { cancelling: false }),
{
}

/// The first message of a session names it; later messages never rename it. Either way the
/// message is appended.
pub proof fn law_first_message_names_the_session(s: StoredSessionSpec, content: Seq<char>)
    ensures
        s.messages.len() == 0 ==> with_user_message(s, content).title == title_of(content),
        s.messages.len() > 0 ==> with_user_message(s, content).title == s.title,
        with_user_message(s, content).messages == s.messages.push(plain_message(MessageRole::User, content)),
{
}

/// Streamed deltas accumulate: two deltas extend the session as their concatenation does.
pub proof fn law_deltas_accumulate(s: StoredSessionSpec, c1: Seq<char>, r1: Seq<char>, c2: Seq<char>, r2: Seq<char>)
    ensures
        with_delta(with_delta(s, c1, r1), c2, r2) == with_delta(s, c1 + c2, r1 + r2),
{
    let once = with_delta(s, c1, r1);
    assert(once.messages.len() > 0 && once.messages.last().role == MessageRole::Model);
    if s.messages.len() > 0 && s.messages.last().role == MessageRole::Model {
        let last = s.messages.last();
        assert(last.content + c1 + c2 =~= last.content + (c1 + c2));
        assert(last.reasoning_content + r1 + r2 =~= last.reasoning_content + (r1 + r2));
        assert(once.messages.last() == StoredMessageSpec {
            content: last.content + c1,
            reasoning_content: last.reasoning_content + r1,
            ..last
        });
        assert(with_delta(once, c2, r2).messages =~= with_delta(s, c1 + c2, r1 + r2).messages);
    } else {
        let m = StoredMessageSpec { reasoning_content: r1, ..plain_message(MessageRole::Model, c1) };
        assert(once.messages == s.messages.push(m));
        assert(once.messages.last() == m);
        let m2 = StoredMessageSpec { content: m.content + c2, reasoning_content: m.reasoning_content + r2, ..m };
        assert(m2 == StoredMessageSpec { reasoning_content: r1 + r2, ..plain_message(MessageRole::Model, c1 + c2) });
        assert(with_delta(once, c2, r2).messages =~= once.messages.update(once.messages.len() - 1, m2));
        assert(with_delta(once, c2, r2).messages =~= with_delta(s, c1 + c2, r1 + r2).messages);
    }
}

/// The per-turn limit on commands: once within the limit, the count of started calls never
/// exceeds it; exactly the first calls up to the limit run; and every requested call is
/// recorded once, followed by a result when it may not run.
pub proof fn law_tool_call_limit(s: StoredSessionSpec, calls: Seq<ToolCallSpec>, started: nat, max: nat)
    requires
        started <= max,
    ensures
        ({
            let p = tool_call_plan(s, calls, started, max);
            let runs = if calls.len() <= max - started { calls.len() } else { (max - started) as nat };
            &&& p.2 <= max
            &&& p.1 == calls.subrange(0, runs as int)
            &&& p.2 == started + runs
            &&& p.0.messages.len() == s.messages.len() + calls.len() + (calls.len() - runs)
        }),
    decreases calls.len(),
{
    if calls.len() > 0 {
        law_tool_call_limit(s, calls.drop_last(), started, max);
        let q = tool_call_plan(s, calls.drop_last(), started, max);
        let runs0 = if calls.drop_last().len() <= max - started { calls.drop_last().len() } else { (max - started) as nat };
        if q.2 < max {
            assert(calls.subrange(0, runs0 as int).push(calls.last()) =~= calls.subrange(0, runs0 + 1 as int));
        }
    } else {
        assert(calls.subrange(0, 0) =~= Seq::<ToolCallSpec>::empty());
    }
}

/// Toggling a profile adds it when the session does not select it and removes one
/// selection of it when the session does (a profile selected once is then no longer
/// selected); toggling an unselected profile twice restores the list. Nothing but the
/// profiles changes.
pub proof fn law_toggling_a_profile(s: StoredSessionSpec, p: Seq<char>)
    ensures
        with_profile_toggled(s, p) == (StoredSessionSpec { profiles: with_profile_toggled(s, p).profiles, ..s }),
        !s.profiles.contains(p) ==> with_profile_toggled(s, p).profiles == s.profiles.push(p),
        !s.profiles.contains(p) ==> with_profile_toggled(with_profile_toggled(s, p), p) == s,
        s.profiles.contains(p) ==> with_profile_toggled(s, p).profiles.len() + 1 == s.profiles.len(),
        s.profiles.contains(p) && s.profiles.no_duplicates() ==> !with_profile_toggled(s, p).profiles.contains(p),
{
    s.profiles.index_of_first_ensures(p);
    if !s.profiles.contains(p) {
        let once = with_profile_toggled(s, p);
        let pushed = s.profiles.push(p);
        pushed.index_of_first_ensures(p);
        assert(pushed[s.profiles.len() as int] == p);
        assert(pushed.contains(p));
        let k = pushed.index_of_first(p)->Some_0;
        if k < s.profiles.len() {
            assert(pushed[k] == s.profiles[k]);
            assert(s.profiles.contains(p));
        }
        assert(k == s.profiles.len());
        assert(pushed.remove(k) =~= s.profiles);
        assert(with_profile_toggled(once, p).profiles =~= s.profiles);
    } else {
        let i = s.profiles.index_of_first(p)->Some_0;
        let removed = s.profiles.remove(i);
        if s.profiles.no_duplicates() {
            assert forall|j: int| 0 <= j < removed.len() implies removed[j] != p by {
                if j < i {
                    assert(removed[j] == s.profiles[j]);
                } else {
                    assert(removed[j] == s.profiles[j + 1]);
                }
            }
        }
    }
}

} // verus!
