use sigmarift::model::{ModelMessage, ToolCall};
use sigmarift::session::{
    combine_system_instructions, combined_system_prompt, execution_privilege_context,
    model_messages_for_session, session_id_is_valid, title_from_first_message, MessageRole,
    SessionId, StoredMessage, StoredSession, BUNDLED_SYSTEM_PROMPT,
};

fn message(role: MessageRole, content: &str, tool_call_id: &str) -> StoredMessage {
    StoredMessage {
        role,
        content: content.to_owned(),
        reasoning_content: String::new(),
        tool_call_id: tool_call_id.to_owned(),
        status: String::new(),
        exit_code: None,
        duration_ms: 0,
        timed_out: false,
    }
}

#[test]
fn session_ids_allow_only_safe_file_name_characters() {
    assert!(session_id_is_valid(&SessionId("session-123_A".to_owned())));
    assert!(!session_id_is_valid(&SessionId("../outside".to_owned())));
    assert!(!session_id_is_valid(&SessionId("session/name".to_owned())));
    assert!(!session_id_is_valid(&SessionId(String::new())));
}

#[test]
fn bundled_system_prompt_defines_workspace_and_execution_contract() {
    let prompt = BUNDLED_SYSTEM_PROMPT;

    assert!(prompt.contains("When output is truncated"));
    assert!(prompt.contains("ask the user to specify"));
    assert!(prompt.contains("Do not guess or repeat a broad command"));
    assert!(prompt.contains("limited number of tool calls per user turn"));
    assert!(prompt.contains("`workspace/` is your working area"));
    assert!(prompt.contains("`playbooks/` contains user-managed Markdown playbooks"));
}

#[test]
fn additional_instructions_append_without_replacing_the_base_contract() {
    assert_eq!(
        combine_system_instructions("Base instructions".to_owned(), "Use Estonian".to_owned()),
        "Base instructions\n\nUse Estonian"
    );
    assert_eq!(
        combine_system_instructions("Base instructions".to_owned(), String::new()),
        "Base instructions"
    );
}

#[test]
fn execution_context_tells_the_model_about_runtime_privileges() {
    for administrator in [true, false] {
        let context = execution_privilege_context(administrator);

        assert!(context.contains("administrator privileges"));
        assert!(context.contains("do not use sudo"));
    }
}

#[test]
fn unprivileged_context_explains_that_prompts_are_unsupported() {
    let context = execution_privilege_context(false);

    assert!(context.contains("not running with administrator privileges"));
    assert!(context.contains("interactive password prompts are unsupported"));
}

#[test]
fn system_prompt_joins_base_instructions_and_privilege_context() {
    let prompt = combined_system_prompt("Base".to_owned(), "Extra".to_owned(), false);

    assert!(prompt.starts_with("Base\n\nExtra\n\n"));
    assert!(prompt.ends_with(execution_privilege_context(false)));
}

#[test]
fn titles_come_from_the_first_non_blank_line() {
    assert_eq!(title_from_first_message("\n   \n  Check the disk  \nmore"), "Check the disk");
    assert_eq!(title_from_first_message("   "), "New session");
    let long = "a".repeat(49);
    assert_eq!(title_from_first_message(&long), format!("{}...", "a".repeat(45)));
    assert_eq!(title_from_first_message(&"b".repeat(48)), "b".repeat(48));
}

#[test]
fn model_history_includes_the_system_prompt_and_tool_exchange() {
    let mut result = message(MessageRole::ExecResult, "Linux\n", "call-1");
    result.status = "exit status: 0".to_owned();
    result.exit_code = Some(0);
    result.duration_ms = 12;
    let mut interrupted = message(MessageRole::Model, "", "");
    interrupted.reasoning_content = "Interrupted while planning the next step.".to_owned();
    let session = StoredSession {
        id: SessionId("tool-history".to_owned()),
        title: "Tool history".to_owned(),
        messages: vec![
            message(MessageRole::User, "Inspect the host", ""),
            message(MessageRole::Exec, "uname -s", "call-1"),
            result,
            interrupted,
        ],
        profiles: Vec::new(),
        last_usage: None,
    };

    let messages = model_messages_for_session(&session, "system prompt".to_owned(), Vec::new());
    assert_eq!(messages.len(), 4);
    assert!(matches!(messages[0], ModelMessage::System(_)));
    assert!(matches!(
        &messages[1],
        ModelMessage::User(content) if content == "Inspect the host"
    ));
    assert!(matches!(
        &messages[2],
        ModelMessage::Model { tool_calls, .. }
            if tool_calls == &vec![ToolCall {
                id: "call-1".to_owned(),
                command: "uname -s".to_owned(),
            }]
    ));
    let ModelMessage::ToolResult {
        tool_call_id,
        content,
    } = &messages[3]
    else {
        panic!("expected tool result");
    };
    assert_eq!(tool_call_id, "call-1");
    let expected: serde_json::Value = serde_json::from_str(
        r#"{"status":"exit status: 0","exit_code":0,"stdout":"Linux\n","stderr":"","duration_ms":12,"timed_out":false}"#,
    )
    .unwrap();
    assert_eq!(serde_json::from_str::<serde_json::Value>(content).unwrap(), expected);
}

#[test]
fn profile_texts_follow_the_system_prompt() {
    let session = StoredSession {
        id: SessionId("profiles".to_owned()),
        title: "Profiles".to_owned(),
        messages: vec![message(MessageRole::User, "hello", "")],
        profiles: vec!["ops".to_owned()],
        last_usage: None,
    };

    let messages = model_messages_for_session(&session, "system".to_owned(), vec!["Ops profile".to_owned()]);

    assert_eq!(messages.len(), 3);
    assert!(matches!(&messages[0], ModelMessage::System(text) if text == "system"));
    assert!(matches!(&messages[1], ModelMessage::System(text) if text == "Ops profile"));
    assert!(matches!(&messages[2], ModelMessage::User(text) if text == "hello"));
}
