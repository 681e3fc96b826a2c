use ds_cli::deepseek::{
    classify_line, merge_tool_calls, EventError, StreamChunk, StreamError, StreamLine, StreamState,
    ToolCallDelta,
};

fn delta(index: Option<u64>, id: Option<&str>, name: Option<&str>, arguments: Option<&str>) -> ToolCallDelta {
    ToolCallDelta {
        index,
        id: id.map(String::from),
        name: name.map(String::from),
        arguments: arguments.map(String::from),
    }
}

#[test]
fn merges_fragmented_tool_call_arguments() {
    let mut calls = Vec::new();
    merge_tool_calls(
        &mut calls,
        &Some(vec![delta(Some(0), Some("call_1"), Some("read_file"), Some("{\"path\":\""))]),
    )
    .unwrap();
    merge_tool_calls(&mut calls, &Some(vec![delta(Some(0), None, None, Some("src/main.rs\"}"))]))
        .unwrap();
    assert_eq!(calls[0].arguments, r#"{"path":"src/main.rs"}"#);
    assert_eq!(calls[0].id, "call_1");
    assert_eq!(calls[0].name, "read_file");
}

#[test]
fn later_indices_create_empty_calls() {
    let mut calls = Vec::new();
    merge_tool_calls(&mut calls, &Some(vec![delta(Some(2), Some("c"), None, None)])).unwrap();
    assert_eq!(calls.len(), 3);
    assert!(calls[0].id.is_empty() && calls[1].arguments.is_empty());
    assert_eq!(calls[2].id, "c");
    merge_tool_calls(&mut calls, &None).unwrap();
    assert_eq!(calls.len(), 3);
}

#[test]
fn an_update_without_index_is_an_error() {
    let mut calls = Vec::new();
    let result = merge_tool_calls(
        &mut calls,
        &Some(vec![delta(Some(0), Some("a"), None, None), delta(None, Some("b"), None, None)]),
    );
    match result {
        Err(e) => {
            assert!(matches!(e, StreamError::MissingIndex));
            assert_eq!(e.message(), "tool call has no index");
        }
        Ok(()) => panic!("expected an error"),
    }
    assert_eq!(calls.len(), 1);
    assert_eq!(calls[0].id, "a");
}

#[test]
fn stream_lines_are_classified() {
    assert!(matches!(classify_line(": keep-alive"), StreamLine::Skip));
    assert!(matches!(classify_line(""), StreamLine::Skip));
    assert!(matches!(classify_line("data: [DONE]"), StreamLine::Done));
    match classify_line("data: {\"x\":1}") {
        StreamLine::Event(e) => assert_eq!(e, "{\"x\":1}"),
        _ => panic!("expected an event"),
    }
    assert!(matches!(classify_line("data:[DONE]"), StreamLine::Skip));
}

#[test]
fn stream_state_collects_a_reply() {
    let mut state = StreamState::new();
    state
        .apply(&StreamChunk { content: Some("Hel".to_string()), tool_calls: None })
        .unwrap();
    state
        .apply(&StreamChunk {
            content: Some("lo".to_string()),
            tool_calls: Some(vec![delta(Some(0), Some("id"), Some("list_files"), Some("{}"))]),
        })
        .unwrap();
    let response = state.finish().ok().unwrap();
    assert_eq!(response.content, "Hello");
    assert_eq!(response.tool_calls.len(), 1);
    assert_eq!(response.tool_calls[0].name, "list_files");
}

#[test]
fn an_empty_stream_is_an_error() {
    let state = StreamState::new();
    match state.finish() {
        Err(e) => assert_eq!(e.message(), "unexpected empty response from DeepSeek"),
        Ok(_) => panic!("expected an error"),
    }
}

#[test]
fn merging_chunk_by_chunk_equals_merging_at_once() {
    let updates = vec![
        delta(Some(1), Some("b"), Some("read_file"), Some("{\"pa")),
        delta(Some(0), Some("a"), Some("list_files"), Some("{}")),
        delta(Some(1), None, None, Some("th\":\"x\"}")),
    ];
    let mut at_once = Vec::new();
    merge_tool_calls(&mut at_once, &Some(updates)).unwrap();
    let mut in_chunks = Vec::new();
    merge_tool_calls(&mut in_chunks, &Some(vec![delta(Some(1), Some("b"), Some("read_file"), Some("{\"pa"))])).unwrap();
    merge_tool_calls(&mut in_chunks, &Some(vec![delta(Some(0), Some("a"), Some("list_files"), Some("{}"))])).unwrap();
    merge_tool_calls(&mut in_chunks, &Some(vec![delta(Some(1), None, None, Some("th\":\"x\"}"))])).unwrap();
    assert_eq!(at_once.len(), 2);
    assert_eq!(in_chunks.len(), 2);
    for (x, y) in at_once.iter().zip(in_chunks.iter()) {
        assert_eq!((&x.id, &x.name, &x.arguments), (&y.id, &y.name, &y.arguments));
    }
    assert_eq!(at_once[1].arguments, "{\"path\":\"x\"}");
}

#[test]
fn stream_events_are_read_as_json() {
    let mut state = StreamState::new();
    state
        .apply_event(r#"{"choices":[{"delta":{"content":"Hel"}}]}"#)
        .ok()
        .unwrap();
    state
        .apply_event(r#"{"choices":[{"delta":{"content":"lo","tool_calls":[{"index":0,"id":"call_1","function":{"name":"read_file","arguments":"{\"path\":\""}}]}}]}"#)
        .ok()
        .unwrap();
    state
        .apply_event(r#"{"choices":[{"delta":{"tool_calls":[{"index":0,"function":{"arguments":"src/main.rs\"}"}}]}}]}"#)
        .ok()
        .unwrap();
    state.apply_event(r#"{"choices":[]}"#).ok().unwrap();
    assert_eq!(state.content, "Hello");
    assert_eq!(state.tool_calls.len(), 1);
    assert_eq!(state.tool_calls[0].id, "call_1");
    assert_eq!(state.tool_calls[0].name, "read_file");
    assert_eq!(state.tool_calls[0].arguments, r#"{"path":"src/main.rs"}"#);
}

#[test]
fn bad_stream_events_are_errors() {
    let mut state = StreamState::new();
    state.apply_event(r#"{"choices":[{"delta":{"content":"kept"}}]}"#).ok().unwrap();
    match state.apply_event("{not json") {
        Err(EventError::Json(message)) => assert!(!message.is_empty()),
        _ => panic!("expected a JSON error"),
    }
    assert_eq!(state.content, "kept");
    match state.apply_event(r#"{"choices":[{"delta":{"tool_calls":[{"id":"x"}]}}]}"#) {
        Err(error) => {
            assert!(matches!(error, EventError::Stream(StreamError::MissingIndex)));
            assert_eq!(error.message(), "tool call has no index");
        }
        Ok(()) => panic!("expected an error"),
    }
    match state.apply_event(r#"{"choices":[{"delta":{"tool_calls":[{"index":18446744073709551615}]}}]}"#) {
        Err(EventError::IndexTooLarge) => {}
        _ => panic!("expected the index to be refused"),
    }
    assert_eq!(state.tool_calls.len(), 0);
}
