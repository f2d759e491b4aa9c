use sigmarift::model::{ModelEvent, ModelMessage, TokenUsage, ToolCall};
use sigmarift::stream::{
    completion_event, execute_arguments, is_chunk_ending, http_message, parse_chunk_size,
    request_head, BodyRead, ChunkError, HttpBody, ReadStep, SseReader, StreamChunk, StreamDelta,
    ToolCallFragment,
};

fn body_reader() -> SseReader {
    let mut reader = SseReader::new();
    assert!(matches!(reader.line(Some("HTTP/1.1 200 OK\r\n")), ReadStep::Continue));
    assert!(matches!(
        reader.line(Some("Content-Type: text/event-stream\r\n")),
        ReadStep::Continue
    ));
    assert!(matches!(
        reader.line(Some("\r\n")),
        ReadStep::BeginBody { chunked: false }
    ));
    reader
}

fn delta(content: Option<&str>, reasoning: Option<&str>, fragments: Vec<ToolCallFragment>) -> StreamChunk {
    StreamChunk {
        delta: Some(StreamDelta {
            content: content.map(str::to_owned),
            reasoning_content: reasoning.map(str::to_owned),
            tool_calls: fragments,
        }),
        usage: None,
    }
}

/// Reads a whole body as the program does: the framing state says what to read next.
fn read_body(input: &[u8], chunked: bool, capacity: usize) -> Result<Vec<u8>, ChunkError> {
    let mut body = HttpBody::new(chunked);
    let mut position = 0;
    let mut output = Vec::new();
    loop {
        match body.next_read(capacity) {
            BodyRead::Raw => {
                output.extend_from_slice(&input[position..]);
                return Ok(output);
            }
            BodyRead::End => return Ok(output),
            BodyRead::SizeLine => {
                let end = input[position..]
                    .iter()
                    .position(|byte| *byte == b'\n')
                    .map_or(input.len(), |offset| position + offset + 1);
                let line = String::from_utf8(input[position..end].to_vec()).unwrap();
                position = end;
                body.size_line(&line)?;
            }
            BodyRead::Data(limit) => {
                let count = limit.min(input.len() - position);
                output.extend_from_slice(&input[position..position + count]);
                position += count;
                if body.consumed(count) {
                    let ending = &input[position..(position + 2).min(input.len())];
                    position += ending.len();
                    if !is_chunk_ending(ending) {
                        return Err(ChunkError::InvalidEnding);
                    }
                }
            }
        }
    }
}

#[test]
fn chunked_http_body_removes_chunk_framing() {
    let input = b"4\r\ndata\r\n4\r\n: ok\r\n0\r\n\r\n".to_vec();

    let output = read_body(&input, true, 3).unwrap();

    assert_eq!(String::from_utf8(output).unwrap(), "data: ok");
}

#[test]
fn chunk_framing_errors_are_reported() {
    assert_eq!(read_body(b"zz\r\ndata", true, 16), Err(ChunkError::InvalidSize));
    assert_eq!(read_body(b"4\r\ndataXY0\r\n\r\n", true, 16), Err(ChunkError::InvalidEnding));
    assert_eq!(read_body(b"plain body", false, 16).unwrap(), b"plain body".to_vec());
    assert_eq!(ChunkError::InvalidSize.message(), "invalid HTTP chunk size");
    assert_eq!(ChunkError::InvalidEnding.message(), "invalid HTTP chunk ending");
}

#[test]
fn chunk_sizes_are_hexadecimal_with_optional_extensions() {
    assert_eq!(parse_chunk_size("1a\r\n"), Some(26));
    assert_eq!(parse_chunk_size("+F;name=value\r\n"), Some(15));
    assert_eq!(parse_chunk_size("\r\n"), None);
    assert_eq!(parse_chunk_size("-1\r\n"), None);
    assert_eq!(parse_chunk_size("+\r\n"), None);
    assert_eq!(parse_chunk_size("fffffffffffffffff\r\n"), None);
}

#[test]
fn body_reader_reads_chunk_by_chunk() {
    let mut body = HttpBody::new(true);
    assert_eq!(body.next_read(16), BodyRead::SizeLine);
    body.size_line("4\r\n").unwrap();
    assert_eq!(body.next_read(16), BodyRead::Data(4));
    assert_eq!(body.next_read(3), BodyRead::Data(3));
    assert!(!body.consumed(3));
    assert!(body.consumed(1));
    body.size_line("0\r\n").unwrap();
    assert_eq!(body.next_read(16), BodyRead::End);
    assert_eq!(HttpBody::new(false).next_read(16), BodyRead::Raw);
}

#[test]
fn sse_chunk_preserves_content_and_reasoning_separately() {
    let mut reader = body_reader();

    let events = reader.apply_chunk(delta(Some("answer"), Some("work"), Vec::new()));

    assert_eq!(
        events,
        vec![ModelEvent::Delta {
            content: "answer".to_owned(),
            reasoning_content: "work".to_owned(),
        }]
    );
}

#[test]
fn sse_usage_is_reported_without_a_content_delta() {
    let mut reader = body_reader();

    let events = reader.apply_chunk(StreamChunk {
        delta: None,
        usage: Some(TokenUsage {
            prompt_tokens: 123,
            completion_tokens: 45,
        }),
    });

    assert_eq!(
        events,
        vec![ModelEvent::Usage(TokenUsage {
            prompt_tokens: 123,
            completion_tokens: 45,
        })]
    );
}

#[test]
fn sse_tool_call_fragments_become_one_execute_call() {
    let mut reader = body_reader();
    let first = delta(
        None,
        None,
        vec![ToolCallFragment {
            index: 0,
            id: "call-1".to_owned(),
            name: "execute".to_owned(),
            arguments: "{\"command\":\"printf ".to_owned(),
        }],
    );
    let second = delta(
        None,
        None,
        vec![ToolCallFragment {
            index: 0,
            id: String::new(),
            name: String::new(),
            arguments: "hello\"}".to_owned(),
        }],
    );

    assert!(reader.apply_chunk(first).is_empty());
    assert!(reader.apply_chunk(second).is_empty());
    assert!(matches!(reader.line(Some("data: [DONE]\n")), ReadStep::Continue));
    let ReadStep::Done(calls) = reader.line(Some("\n")) else {
        panic!("expected the end of the stream");
    };
    assert_eq!(calls.len(), 1);
    assert_eq!(calls[0].arguments, "{\"command\":\"printf hello\"}");
    let arguments: serde_json::Value = serde_json::from_str(&calls[0].arguments).unwrap();
    let command = arguments["command"].as_str().unwrap().to_owned();

    assert_eq!(
        completion_event(&calls, vec![Ok(command)]).unwrap(),
        ModelEvent::ToolCalls(vec![ToolCall {
            id: "call-1".to_owned(),
            command: "printf hello".to_owned(),
        }])
    );
}

#[test]
fn other_tools_are_rejected() {
    let mut reader = body_reader();
    reader.apply_chunk(delta(
        None,
        None,
        vec![ToolCallFragment {
            index: 1,
            id: "call-2".to_owned(),
            name: "browse".to_owned(),
            arguments: "{}".to_owned(),
        }],
    ));
    reader.line(Some("data: [DONE]\n"));
    let ReadStep::Done(calls) = reader.line(Some("\n")) else {
        panic!("expected the end of the stream");
    };

    assert_eq!(calls.len(), 2);
    assert_eq!(
        completion_event(&calls, vec![Err("bad".to_owned()), Ok("x".to_owned())]),
        Err("unsupported tool: ".to_owned())
    );
}

#[test]
fn incomplete_http_headers_report_an_error() {
    let mut reader = SseReader::new();
    reader.line(Some("HTTP/1.1 200 OK\r\n"));
    reader.line(Some("Content-Type: text/event-stream\r\n"));

    let ReadStep::Fail(error) = reader.line(None) else {
        panic!("expected an error");
    };

    assert!(error.contains("before completing HTTP headers"));
}

#[test]
fn error_status_lines_are_reported() {
    let mut reader = SseReader::new();

    let ReadStep::Fail(error) = reader.line(Some("HTTP/1.1 500 Internal Server Error\r\n")) else {
        panic!("expected an error");
    };

    assert_eq!(error, "llama-server returned HTTP/1.1 500 Internal Server Error");
}

#[test]
fn chunked_transfer_encoding_is_detected() {
    let mut reader = SseReader::new();
    reader.line(Some("HTTP/1.1 200 OK\r\n"));
    reader.line(Some("transfer-encoding:  Chunked \r\n"));

    assert!(matches!(
        reader.line(Some("\r\n")),
        ReadStep::BeginBody { chunked: true }
    ));
}

#[test]
fn stream_eof_before_done_is_a_model_error_after_preserving_deltas() {
    let mut reader = body_reader();

    assert!(matches!(
        reader.line(Some("data: {\"choices\":[{\"delta\":{\"content\":\"partial\"}}]}\n")),
        ReadStep::Continue
    ));
    let ReadStep::Payload(payload) = reader.line(Some("\n")) else {
        panic!("expected an event payload");
    };
    assert_eq!(payload, "{\"choices\":[{\"delta\":{\"content\":\"partial\"}}]}");
    let events = reader.apply_chunk(delta(Some("partial"), None, Vec::new()));
    let ReadStep::Fail(error) = reader.line(None) else {
        panic!("expected an error");
    };

    assert!(error.contains("before [DONE]"));
    assert_eq!(
        events,
        vec![ModelEvent::Delta {
            content: "partial".to_owned(),
            reasoning_content: String::new(),
        }]
    );
}

#[test]
fn multi_line_event_data_is_joined_by_line_feeds() {
    let mut reader = body_reader();
    reader.line(Some("data: first\r\n"));
    reader.line(Some("data:second\n"));
    reader.line(Some(": a comment\n"));

    let ReadStep::Payload(payload) = reader.line(Some("\r\n")) else {
        panic!("expected an event payload");
    };

    assert_eq!(payload, "first\nsecond");
}

#[test]
fn done_event_completes_a_stream() {
    let mut reader = body_reader();
    reader.line(Some("data: [DONE]\n"));

    let ReadStep::Done(calls) = reader.line(Some("\n")) else {
        panic!("expected the end of the stream");
    };

    assert_eq!(completion_event(&calls, Vec::new()).unwrap(), ModelEvent::Complete);
}

#[test]
fn model_messages_take_the_api_form() {
    let message = http_message(&ModelMessage::Model {
        content: String::new(),
        tool_calls: vec![ToolCall {
            id: "call-1".to_owned(),
            command: "ls \"a b\"".to_owned(),
        }],
    });

    assert_eq!(message.role, "assistant");
    assert!(message.content.is_none());
    let calls = message.tool_calls.unwrap();
    assert_eq!(calls[0].id, "call-1");
    assert_eq!(calls[0].arguments, "{\"command\":\"ls \\\"a b\\\"\"}");
    assert_eq!(execute_arguments("x"), "{\"command\":\"x\"}");

    let tool = http_message(&ModelMessage::ToolResult {
        tool_call_id: "call-1".to_owned(),
        content: "{}".to_owned(),
    });
    assert_eq!(tool.role, "tool");
    assert_eq!(tool.tool_call_id.as_deref(), Some("call-1"));
}

#[test]
fn request_head_announces_the_body_length() {
    let head = request_head(42);

    assert!(head.starts_with("POST /v1/chat/completions HTTP/1.1\r\n"));
    assert!(head.contains("Content-Length: 42\r\n"));
    assert!(head.ends_with("Connection: close\r\n\r\n"));
}

#[test]
fn commands_are_quoted_as_json_strings() {
    assert_eq!(
        execute_arguments("a\u{1}\"\\\n\tb/é"),
        "{\"command\":\"a\\u0001\\\"\\\\\\n\\tb/é\"}"
    );
}
