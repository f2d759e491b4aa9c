use sigmarift::screen::{
    context_left_text, context_usage_text, has_empty_markdown_wrapper, padded_label,
    pending_model_turn_has_no_output, processing_model_input, reasoning_without_label,
    runtime_is_ready, session_row_text, truncate_label, unwrap_markdown_document,
    wrap_indented_spans, wrapped_line_count,
};
use sigmarift::control::RuntimeView;
use sigmarift::session::{AppSnapshot, MessageView, SessionView};

fn snapshot_with_last_message(role: &str) -> AppSnapshot {
    AppSnapshot {
        sessions: Vec::new(),
        active_session: Some(SessionView {
            id: "session".to_owned(),
            title: "Session".to_owned(),
            messages: vec![MessageView {
                role: role.to_owned(),
                content: String::new(),
                reasoning_content: String::new(),
                status: String::new(),
            }],
            profiles: Vec::new(),
        }),
    }
}

fn rendered_markdown(content: &str) -> String {
    tui_markdown::from_str(content)
        .lines
        .iter()
        .map(|line| line.to_string())
        .collect::<Vec<_>>()
        .join("\n")
}

#[test]
fn processing_badge_marks_any_active_model_input() {
    assert!(processing_model_input(
        &snapshot_with_last_message("exec_result"),
        true
    ));
    assert!(processing_model_input(
        &snapshot_with_last_message("user"),
        true
    ));
    assert!(!processing_model_input(
        &snapshot_with_last_message("model"),
        true
    ));
    assert!(!processing_model_input(
        &snapshot_with_last_message("exec_result"),
        false
    ));
}

#[test]
fn pending_model_turn_gets_a_badge_only_before_its_first_output() {
    assert!(pending_model_turn_has_no_output(
        &snapshot_with_last_message("user")
    ));
    assert!(pending_model_turn_has_no_output(
        &snapshot_with_last_message("exec_result")
    ));
    assert!(!pending_model_turn_has_no_output(
        &snapshot_with_last_message("model")
    ));
}

#[test]
fn model_labels_keep_side_padding_when_they_fit() {
    assert_eq!(padded_label("model.gguf", 16), " model.gguf ");
}

#[test]
fn model_labels_truncate_without_overflowing_the_row() {
    assert_eq!(padded_label("very-long-model.gguf", 12), " very-lo... ");
}

#[test]
fn truncation_shows_only_dots_in_narrow_space() {
    assert_eq!(truncate_label("abcdef", 3), "...");
    assert_eq!(truncate_label("abcdef", 6), "abcdef");
    assert_eq!(truncate_label("abcdef", 5), "ab...");
}

#[test]
fn markdown_wrapper_is_removed_but_the_inner_code_fence_is_kept() {
    let content = "```markdown\n# Heading\n\n```rust\nlet value = 1;\n```\n```";
    assert!(!has_empty_markdown_wrapper(content));
    let unwrapped = unwrap_markdown_document(content);
    assert_eq!(unwrapped, "# Heading\n\n```rust\nlet value = 1;\n```");

    let rendered = rendered_markdown(&unwrapped);
    assert!(rendered.contains("Heading"));
    assert!(rendered.contains("let value = 1;"));
    assert!(!rendered.contains("```markdown"));
}

#[test]
fn markdown_wrapper_is_removed_after_an_introduction() {
    let content = "Here is the requested document:\n\n```markdown\n# Heading\n\n```bash\nprintf hello\n```\n\n*Done.*\n```";
    let unwrapped = unwrap_markdown_document(content);
    assert_eq!(
        unwrapped,
        "Here is the requested document:\n\n# Heading\n\n```bash\nprintf hello\n```\n\n*Done.*"
    );

    let rendered = rendered_markdown(&unwrapped);
    assert!(rendered.contains("Here is the requested document:"));
    assert!(rendered.contains("Heading"));
    assert!(rendered.contains("printf hello"));
    assert!(rendered.contains("Done."));
    assert!(!rendered.contains("```markdown"));
}

#[test]
fn markdown_code_example_after_an_introduction_stays_literal() {
    let content = "Here is a Markdown example:\n\n```markdown\n# Literal heading\n```";
    assert_eq!(unwrap_markdown_document(content), content);
    assert!(rendered_markdown(content).contains("# Literal heading"));
}

#[test]
fn content_without_a_wrapper_is_unchanged() {
    assert_eq!(unwrap_markdown_document("plain text"), "plain text");
    assert_eq!(unwrap_markdown_document("```md\nbody\n```\n\n"), "body");
    assert_eq!(unwrap_markdown_document("```rust\ncode\n```"), "```rust\ncode\n```");
}

#[test]
fn an_empty_markdown_wrapper_is_reported() {
    assert!(has_empty_markdown_wrapper("```markdown\n```"));
    assert!(!has_empty_markdown_wrapper("```markdown\nx\n```"));
    assert!(!has_empty_markdown_wrapper("no fence"));
}

#[test]
fn reasoning_wrap_uses_terminal_cell_width_for_wide_characters() {
    let wrapped = wrap_indented_spans(&["界x".to_owned()], 3, 5);

    assert_eq!(wrapped.len(), 2);
    let rows: Vec<String> = wrapped
        .iter()
        .map(|row| {
            let mut text = "   ".to_owned();
            for (_, fragment) in row {
                text.push_str(fragment);
            }
            text
        })
        .collect();
    assert_eq!(rows[0], "   界");
    assert_eq!(rows[1], "   x");
    assert!(rows
        .iter()
        .all(|row| unicode_width::UnicodeWidthStr::width(row.as_str()) <= 5));
}

#[test]
fn wrapped_fragments_remember_their_span() {
    let wrapped = wrap_indented_spans(&["ab".to_owned(), "cd".to_owned()], 0, 3);
    assert_eq!(
        wrapped,
        vec![
            vec![(0, "ab".to_owned()), (1, "c".to_owned())],
            vec![(1, "d".to_owned())],
        ]
    );
}

#[test]
fn wrapped_line_count_rounds_each_line_up() {
    assert_eq!(wrapped_line_count(&[0, 5, 10, 11], 5), 1 + 1 + 2 + 3);
    assert_eq!(wrapped_line_count(&[7], 0), 0);
}

#[test]
fn reasoning_labels_are_removed_without_changing_the_body() {
    assert_eq!(
        reasoning_without_label("Thinking: work it out"),
        "work it out"
    );
    assert_eq!(
        reasoning_without_label("  Thinking Process:\nwork it out"),
        "  work it out"
    );
    assert_eq!(
        reasoning_without_label("Thoughts: work it out"),
        "Thoughts: work it out"
    );
}

#[test]
fn ready_status_and_row_texts() {
    assert!(runtime_is_ready("READY"));
    assert!(!runtime_is_ready("STARTING"));
    assert_eq!(session_row_text("Notes"), "❏  Notes");
}

#[test]
fn context_texts_follow_the_runtime() {
    let mut runtime = RuntimeView {
        model_name: None,
        status: "READY".to_owned(),
        llama_version: "1".to_owned(),
        context_size: 100,
        prompt_tokens: None,
        completion_tokens: None,
        context_full: false,
    };
    assert_eq!(context_usage_text(&runtime), "- / 100");
    assert_eq!(context_left_text(&runtime), "-");
    runtime.prompt_tokens = Some(80);
    runtime.completion_tokens = Some(30);
    assert_eq!(context_usage_text(&runtime), "110 / 100");
    assert_eq!(context_left_text(&runtime), "0");
    runtime.completion_tokens = Some(5);
    assert_eq!(context_left_text(&runtime), "15");
}
