use sigmarift::execute::{
    exec_result, failed_to_start, supervise, ExecutionSettings, OutputCapture, Supervision,
};

fn captured(bytes: &[u8], limit: usize, name: &str) -> String {
    let mut capture = OutputCapture::new(limit);
    capture.push_bytes(bytes);
    assert_eq!(capture.total(), bytes.len());
    capture.finish(name)
}

#[test]
fn large_output_is_bounded_and_explains_how_to_continue() {
    let settings = ExecutionSettings::default();
    let output = vec![b'x'; 20000];
    let mut capture = OutputCapture::new(settings.stdout_limit());
    for chunk in output.chunks(4096) {
        capture.push_bytes(chunk);
    }
    let stdout = capture.finish("stdout");
    let head_bytes = settings.max_stdout_bytes * 2 / 3;
    let tail_bytes = settings.max_stdout_bytes - head_bytes;

    assert!(stdout.starts_with(&"x".repeat(head_bytes)));
    assert!(stdout.ends_with(&"x".repeat(tail_bytes)));
    assert!(stdout.contains(&format!(
        "[stdout truncated: showing first {} and last {} bytes of 20000 bytes.",
        head_bytes, tail_bytes,
    )));
    assert!(stdout.len() < 20000);
}

#[test]
fn output_within_the_limit_is_kept_whole() {
    assert_eq!(captured(b"hello", 5, "stdout"), "hello");
    assert_eq!(captured(b"", 3, "stderr"), "");
}

#[test]
fn truncated_output_keeps_two_thirds_before_the_note() {
    assert_eq!(
        captured(b"abcdefg", 3, "stderr"),
        "ab\n\n[stderr truncated: showing first 2 and last 1 bytes of 7 bytes. Narrow the command or ask the user to specify the scope.]\n\ng"
    );
}

#[test]
fn invalid_utf8_is_replaced_in_captured_output() {
    assert_eq!(captured(&[b'a', 0xff, b'b'], 10, "stdout"), "a\u{fffd}b");
}

#[test]
fn default_execution_limits() {
    let settings = ExecutionSettings::default();
    assert_eq!(settings.timeout_seconds, 30);
    assert_eq!(settings.max_stdout_bytes, 2048);
    assert_eq!(settings.max_stderr_bytes, 1024);
    assert_eq!(settings.max_tool_calls_per_turn, 8);
}

#[test]
fn supervision_notices_exit_then_interruption_then_timeout() {
    let settings = ExecutionSettings {
        timeout_seconds: 1,
        ..ExecutionSettings::default()
    };
    assert_eq!(supervise(true, true, 5000, &settings), Supervision::Collect);
    assert_eq!(supervise(false, true, 5000, &settings), Supervision::Interrupt);
    assert_eq!(supervise(false, false, 1000, &settings), Supervision::TimeOut);
    assert_eq!(supervise(false, false, 999, &settings), Supervision::Wait);

    let zero = ExecutionSettings {
        timeout_seconds: 0,
        ..ExecutionSettings::default()
    };
    assert_eq!(supervise(false, false, 999, &zero), Supervision::Wait);
    assert_eq!(supervise(false, false, 1000, &zero), Supervision::TimeOut);
}

#[test]
fn execution_timeout_is_reported_in_the_status() {
    let settings = ExecutionSettings {
        timeout_seconds: 1,
        ..ExecutionSettings::default()
    };
    let result = exec_result(
        String::new(),
        String::new(),
        Supervision::TimeOut,
        true,
        &settings,
        "signal: 9".to_owned(),
        None,
        1000,
    );
    assert_eq!(result.status, "timed out after 1 seconds");
    assert!(result.timed_out);
    assert_eq!(result.exit_code, None);

    let interrupted = exec_result(
        String::new(),
        String::new(),
        Supervision::Interrupt,
        true,
        &settings,
        "signal: 9".to_owned(),
        None,
        50,
    );
    assert_eq!(interrupted.status, "interrupted by user");
    assert!(!interrupted.timed_out);

    let finished = exec_result(
        "out".to_owned(),
        "err".to_owned(),
        Supervision::Collect,
        false,
        &settings,
        "exit status: 7".to_owned(),
        Some(7),
        3,
    );
    assert_eq!(finished.stdout, "out");
    assert_eq!(finished.stderr, "err");
    assert_eq!(finished.status, "exit status: 7");
    assert_eq!(finished.exit_code, Some(7));
}

#[test]
fn a_command_that_cannot_start_reports_why() {
    let result = failed_to_start("no shell".to_owned());
    assert_eq!(result.status, "failed to start");
    assert_eq!(result.stderr, "no shell");
    assert_eq!(result.stdout, "");
    assert!(!result.timed_out);
}

#[test]
fn a_group_that_already_exited_keeps_its_real_status() {
    let settings = ExecutionSettings::default();
    for ending in [Supervision::Interrupt, Supervision::TimeOut] {
        let result = exec_result(
            String::new(),
            String::new(),
            ending,
            false,
            &settings,
            "exit status: 7".to_owned(),
            Some(7),
            5,
        );
        assert_eq!(result.status, "exit status: 7");
        assert!(!result.timed_out);
    }
}
