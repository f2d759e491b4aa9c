use sigmarift::control::{
    runtime_not_ready_error, Control, InterruptSignal, LoadOutcome, LoadedSessions, NextWork,
    Observation, PollStep, WorkerEvent, STREAM_PERSIST_INTERVAL_MS,
};
use sigmarift::execute::{ExecResult, ExecutionSettings};
use sigmarift::model::{
    AvailableModel, ModelEvent, ModelParameters, ModelRuntimeState, StartupModelSelection,
    TokenUsage, ToolCall,
};
use sigmarift::session::{MessageRole, SessionId, StoredMessage, StoredSession};

fn session(id: &str, title: &str) -> StoredSession {
    StoredSession {
        id: SessionId(id.to_owned()),
        title: title.to_owned(),
        messages: Vec::new(),
        profiles: Vec::new(),
        last_usage: None,
    }
}

fn control_with(sessions: Vec<StoredSession>, execution: ExecutionSettings) -> Control {
    let mut loaded = LoadedSessions::new();
    for s in sessions {
        let path = format!("sessions/{}.json", s.id.0);
        assert_eq!(loaded.offer(&path, Ok(s)), LoadOutcome::Loaded);
    }
    Control::new(
        ModelParameters::default(),
        execution,
        StartupModelSelection::NoUsableModels,
        loaded,
    )
}

fn call(id: &str, command: &str) -> ToolCall {
    ToolCall {
        id: id.to_owned(),
        command: command.to_owned(),
    }
}

fn write_pending_session(control: &mut Control, now: u64) {
    match control.next_step(now) {
        PollStep::WriteSession(s) => control.session_written(&s.id),
        _ => panic!("expected a session write"),
    }
}

#[test]
fn runtime_must_be_ready_before_a_request_starts() {
    assert_eq!(runtime_not_ready_error(ModelRuntimeState::Ready), None);
    assert_eq!(
        runtime_not_ready_error(ModelRuntimeState::Starting).as_deref(),
        Some("model runtime is still starting")
    );
    assert_eq!(
        runtime_not_ready_error(ModelRuntimeState::Failed("exited".to_owned())).as_deref(),
        Some("model runtime failed: exited")
    );
}

#[test]
fn session_loading_skips_settings_invalid_and_duplicate_files() {
    let mut loaded = LoadedSessions::new();

    assert_eq!(loaded.offer("sessions/runtime.json", Err("{runtime".to_owned())), LoadOutcome::Settings);
    assert_eq!(loaded.offer("sessions/valid.json", Ok(session("valid", "Valid"))), LoadOutcome::Loaded);
    assert_eq!(
        loaded.offer("sessions/broken.json", Err("expected value".to_owned())),
        LoadOutcome::Invalid
    );
    assert_eq!(loaded.offer("sessions/other.json", Ok(session("valid", "Copy"))), LoadOutcome::NameMismatch);
    assert_eq!(loaded.offer("sessions/valid.json", Ok(session("valid", "Copy"))), LoadOutcome::Duplicate);
    assert_eq!(loaded.offer("sessions/..json", Ok(session(".", "Bad"))), LoadOutcome::InvalidId);

    let warnings = loaded.warnings_view();
    assert_eq!(loaded.sessions_view().len(), 1);
    assert_eq!(warnings.len(), 4);
    assert!(warnings[0].contains("broken.json"));
    assert_eq!(warnings[0], "Skipped invalid session sessions/broken.json: expected value");
}

#[test]
fn snapshot_exposes_the_active_session_by_stable_id() {
    let mut control = control_with(
        vec![session("first", "First"), session("second", "Second")],
        ExecutionSettings::default(),
    );
    assert!(control.select_session("second"));

    let snapshot = control.snapshot();
    assert_eq!(snapshot.sessions.len(), 2);
    assert_eq!(snapshot.active_session.unwrap().id, "second");
}

#[test]
fn interrupted_model_turn_remains_active_until_its_stream_closes() {
    let mut control = control_with(vec![session("cancelled", "Cancelled")], ExecutionSettings::default());
    assert!(control.begin_model_request(&SessionId("cancelled".to_owned()), true));

    assert_eq!(control.interrupt(), InterruptSignal::CancelModelRequest);
    assert!(control.turn_active());
    assert!(matches!(control.observe(WorkerEvent::Disconnected, 0), Observation::Continue));
    assert!(matches!(control.next_step(0), PollStep::FinishTurn));
    assert_eq!(control.finish_turn(), Ok(()));
    assert!(!control.turn_active());
}

#[test]
fn a_lost_worker_ends_the_turn_with_an_error() {
    let mut control = control_with(vec![session("lost", "Lost")], ExecutionSettings::default());
    control.begin_model_request(&SessionId("lost".to_owned()), true);

    control.observe(WorkerEvent::Disconnected, 0);

    assert_eq!(control.finish_turn(), Err("turn worker disconnected".to_owned()));
    assert!(!control.turn_active());
}

#[test]
fn a_second_interrupt_does_nothing() {
    let mut control = control_with(vec![session("twice", "Twice")], ExecutionSettings::default());
    assert_eq!(control.interrupt(), InterruptSignal::Nothing);
    control.begin_model_request(&SessionId("twice".to_owned()), true);

    assert_eq!(control.interrupt(), InterruptSignal::CancelModelRequest);
    assert_eq!(control.interrupt(), InterruptSignal::Nothing);
}

#[test]
fn no_usable_model_has_a_blocking_startup_error() {
    let control = control_with(Vec::new(), ExecutionSettings::default());

    assert_eq!(
        control.startup_error().as_deref(),
        Some("No usable .gguf model was found in models/.")
    );
}

#[test]
fn selected_model_is_reported_as_not_started_until_the_runtime_runs() {
    let model = AvailableModel::new("models/missing.gguf").unwrap();
    let control = Control::new(
        ModelParameters::default(),
        ExecutionSettings::default(),
        StartupModelSelection::Selected(model),
        LoadedSessions::new(),
    );

    let view = control.runtime_view(None, "unknown".to_owned());
    assert_eq!(view.status, "RUNTIME NOT STARTED");
    assert_eq!(view.model_name.as_deref(), Some("missing.gguf"));
    let ready = control.runtime_view(Some(Ok(ModelRuntimeState::Ready)), "b1".to_owned());
    assert_eq!(ready.status, "READY");
    assert_eq!(ready.llama_version, "b1");
}

#[test]
fn deleting_the_active_session_selects_its_successor() {
    let mut control = control_with(
        vec![session("first", "First"), session("second", "Second")],
        ExecutionSettings::default(),
    );

    assert!(control.deletable_session("first").is_some());
    assert!(control.remove_session("first"));
    assert_eq!(control.snapshot().active_session.unwrap().id, "second");
    assert!(!control.remove_session("first"));
}

#[test]
fn deleting_the_last_session_selects_its_predecessor() {
    let mut control = control_with(
        vec![session("first", "First"), session("second", "Second")],
        ExecutionSettings::default(),
    );
    control.select_session("second");

    assert!(control.remove_session("second"));
    assert_eq!(control.snapshot().active_session.unwrap().id, "first");
    assert!(control.remove_session("first"));
    assert!(control.snapshot().active_session.is_none());
}

#[test]
fn a_session_with_a_turn_in_flight_is_not_deleted() {
    let mut control = control_with(vec![session("busy", "Busy")], ExecutionSettings::default());
    control.begin_model_request(&SessionId("busy".to_owned()), true);

    assert!(control.deletable_session("busy").is_none());
    assert!(!control.remove_session("busy"));
}

#[test]
fn streamed_deltas_accumulate_in_memory_and_are_written_when_due() {
    let id = SessionId("delta".to_owned());
    let mut control = control_with(vec![session("delta", "Delta")], ExecutionSettings::default());
    control.begin_model_request(&id, true);

    control.observe(
        WorkerEvent::Model(ModelEvent::Delta {
            content: "Hello".to_owned(),
            reasoning_content: "thinking".to_owned(),
        }),
        1_000,
    );
    control.observe(
        WorkerEvent::Model(ModelEvent::Delta {
            content: " world".to_owned(),
            reasoning_content: String::new(),
        }),
        1_100,
    );

    let memory = &control.snapshot().active_session.unwrap().messages[0];
    assert_eq!(memory.content, "Hello world");
    assert_eq!(memory.reasoning_content, "thinking");
    assert!(matches!(control.next_step(1_000 + STREAM_PERSIST_INTERVAL_MS - 1), PollStep::Receive));
    match control.next_step(1_000 + STREAM_PERSIST_INTERVAL_MS) {
        PollStep::WriteSession(s) => {
            assert_eq!(s.messages[0].content, "Hello world");
            control.session_written(&s.id);
        }
        _ => panic!("expected the throttled write"),
    }
    assert!(matches!(control.next_step(1_000 + STREAM_PERSIST_INTERVAL_MS), PollStep::Receive));
}

#[test]
fn completion_writes_streamed_output_before_finishing() {
    let id = SessionId("complete".to_owned());
    let mut control = control_with(vec![session("complete", "Complete")], ExecutionSettings::default());
    control.begin_model_request(&id, true);
    control.observe(
        WorkerEvent::Model(ModelEvent::Delta {
            content: "final".to_owned(),
            reasoning_content: String::new(),
        }),
        0,
    );
    control.observe(WorkerEvent::Model(ModelEvent::Complete), 1);

    write_pending_session(&mut control, 1);
    assert!(matches!(control.next_step(1), PollStep::FinishTurn));
    assert_eq!(control.finish_turn(), Ok(()));
    assert!(!control.turn_active());
}

#[test]
fn usage_is_recorded_and_written_at_once() {
    let id = SessionId("usage".to_owned());
    let mut control = control_with(vec![session("usage", "Usage")], ExecutionSettings::default());
    control.begin_model_request(&id, true);

    let observation = control.observe(
        WorkerEvent::Model(ModelEvent::Usage(TokenUsage {
            prompt_tokens: 8000,
            completion_tokens: 192,
        })),
        0,
    );

    let Observation::WriteSession(written) = observation else {
        panic!("expected a session write");
    };
    assert_eq!(written.last_usage.unwrap().completion_tokens, 192);
    control.session_written(&written.id);
    let view = control.runtime_view(None, String::new());
    assert_eq!(view.prompt_tokens, Some(8000));
    assert!(view.context_full);
}

#[test]
fn tool_calls_beyond_the_limit_get_a_result_without_running() {
    let id = SessionId("limit".to_owned());
    let execution = ExecutionSettings {
        max_tool_calls_per_turn: 1,
        ..ExecutionSettings::default()
    };
    let mut control = control_with(vec![session("limit", "Tool limit")], execution);
    control.begin_model_request(&id, true);
    control.observe(
        WorkerEvent::Model(ModelEvent::ToolCalls(vec![
            call("call-first", "printf first"),
            call("call-rejected", "printf should-not-run"),
        ])),
        0,
    );

    let PollStep::WriteToolCalls(planned) = control.next_step(0) else {
        panic!("expected the tool calls to be written");
    };
    assert_eq!(planned.messages.len(), 3);
    assert_eq!(planned.messages[0].role, MessageRole::Exec);
    assert_eq!(planned.messages[1].role, MessageRole::Exec);
    assert_eq!(planned.messages[2].role, MessageRole::ExecResult);
    assert_eq!(planned.messages[2].status, "tool call limit reached");
    assert_eq!(
        planned.messages[2].reasoning_content,
        "Tool call was not run: the limit of 1 calls per user turn was reached."
    );
    let NextWork::RunCommand(first) = control.tool_calls_written() else {
        panic!("expected the first call to run");
    };
    assert_eq!(first.id, "call-first");
    assert!(control.turn_active());
}

#[test]
fn a_command_result_is_recorded_and_the_model_is_asked_again() {
    let id = SessionId("exec".to_owned());
    let mut control = control_with(vec![session("exec", "Exec")], ExecutionSettings::default());
    control.begin_model_request(&id, true);
    control.observe(WorkerEvent::Model(ModelEvent::ToolCalls(vec![call("call-1", "uname")])), 0);
    let PollStep::WriteToolCalls(_) = control.next_step(0) else {
        panic!("expected the tool calls to be written");
    };
    control.tool_calls_written();

    let result = ExecResult {
        stdout: "Linux\n".to_owned(),
        stderr: String::new(),
        status: "exit status: 0".to_owned(),
        exit_code: Some(0),
        duration_ms: 3,
        timed_out: false,
    };
    let Observation::WriteResults(recorded) = control.observe(WorkerEvent::Command(result), 5) else {
        panic!("expected the result to be written");
    };
    assert_eq!(recorded.messages.last().unwrap().content, "Linux\n");
    let NextWork::RequestModel(next) = control.results_written(recorded) else {
        panic!("expected another model request");
    };
    assert_eq!(next, id);
    assert!(!control.turn_active());
}

#[test]
fn interrupt_records_results_for_tool_calls_that_were_not_started() {
    let id = SessionId("cancelled-tools".to_owned());
    let mut control = control_with(vec![session("cancelled-tools", "Cancelled")], ExecutionSettings::default());
    control.begin_model_request(&id, true);
    control.observe(
        WorkerEvent::Model(ModelEvent::ToolCalls(vec![call("first", "sleep 1"), call("second", "printf second")])),
        0,
    );
    let PollStep::WriteToolCalls(_) = control.next_step(0) else {
        panic!("expected the tool calls to be written");
    };
    control.tool_calls_written();
    assert_eq!(control.interrupt(), InterruptSignal::CancelCommand);

    let result = ExecResult {
        stdout: String::new(),
        stderr: String::new(),
        status: "interrupted by user".to_owned(),
        exit_code: None,
        duration_ms: 1,
        timed_out: false,
    };
    let Observation::WriteResults(recorded) = control.observe(WorkerEvent::Command(result), 1) else {
        panic!("expected the results to be written");
    };
    let results = recorded
        .messages
        .iter()
        .filter(|message| message.role == MessageRole::ExecResult)
        .collect::<Vec<&StoredMessage>>();
    assert_eq!(results.len(), 2);
    assert_eq!(results[0].tool_call_id, "first");
    assert_eq!(results[1].tool_call_id, "second");
    assert_eq!(results[1].status, "not run: interrupted");
    assert!(matches!(control.results_written(recorded), NextWork::Stop));
    assert!(!control.turn_active());
}

#[test]
fn user_message_titles_a_new_session() {
    let id = SessionId("fresh".to_owned());
    let mut control = control_with(vec![session("fresh", "New session")], ExecutionSettings::default());

    assert_eq!(control.user_turn_target(), Some(id.clone()));
    let updated = control.session_with_user_message(&id, "  List files\nplease".to_owned()).unwrap();
    assert_eq!(updated.title, "List files");
    assert!(control.commit_session(updated));
    assert!(control.begin_user_turn(&id, true));
    assert!(control.user_turn_target().is_none());
}
