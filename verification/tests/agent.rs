use ds_cli::agent::{
    assistant_message, command, first_prompt, has_text, key_source, prompt_input,
    round_limit_message, select_model, system_message, tool_error_result, Command, KeySource,
    Message, Turn, TurnAction, MAX_TOOL_ROUNDS,
};
use ds_cli::guidance::{
    guidance_files, guidance_message, guidance_size_ok, is_guidance_name, GuidanceCandidate,
    GuidanceFile,
};
use ds_cli::tools::ToolCall;

fn call(id: &str) -> ToolCall {
    ToolCall { id: id.to_string(), name: "list_files".to_string(), arguments: "{}".to_string() }
}

#[test]
fn plain_assistant_messages_omit_tool_calls() {
    let message = assistant_message("done".into(), &[]);
    match message {
        Message::Assistant { content, tool_calls } => {
            assert!(tool_calls.is_none());
            assert_eq!(content.as_deref(), Some("done"));
        }
        _ => panic!("expected an assistant message"),
    }
}

#[test]
fn assistant_messages_keep_tool_calls() {
    match assistant_message(String::new(), &[call("c1")]) {
        Message::Assistant { content, tool_calls } => {
            assert!(content.is_none());
            let calls = tool_calls.unwrap();
            assert_eq!(calls.len(), 1);
            assert_eq!(calls[0].id, "c1");
        }
        _ => panic!("expected an assistant message"),
    }
}

#[test]
fn system_message_opens_the_conversation() {
    match system_message() {
        Message::System { content } => assert!(content.starts_with("You are a helpful coding agent.")),
        _ => panic!("expected a system message"),
    }
}

#[test]
fn environment_key_overrides_the_saved_one() {
    assert!(matches!(
        key_source(Some("env".to_string()), Some("saved".to_string())),
        KeySource::Environment(ref k) if k == "env"
    ));
    assert!(matches!(
        key_source(Some(String::new()), Some("saved".to_string())),
        KeySource::Saved(ref k) if k == "saved"
    ));
    assert!(matches!(key_source(None, None), KeySource::Prompt));
    assert!(matches!(key_source(Some(String::new()), None), KeySource::Prompt));
}

#[test]
fn model_selection_prefers_listed_models() {
    let models = vec!["deepseek-chat".to_string(), "deepseek-reasoner".to_string()];
    assert_eq!(select_model(Some("deepseek-reasoner"), "deepseek-chat", &models), "deepseek-reasoner");
    assert_eq!(select_model(Some("gpt"), "deepseek-reasoner", &models), "deepseek-reasoner");
    assert_eq!(select_model(None, "old-model", &models), "deepseek-chat");
    assert_eq!(select_model(None, "", &models), "deepseek-chat");
}

#[test]
fn prompt_commands() {
    assert!(matches!(command(""), Command::Nothing));
    assert!(matches!(command("/exit"), Command::Exit));
    assert!(matches!(command("/quit"), Command::Exit));
    assert!(matches!(command("/model"), Command::ChooseModel));
    assert!(matches!(command("/models"), Command::Ask));
    assert!(matches!(command("hello"), Command::Ask));
    assert_eq!(prompt_input("  hi there \n"), "hi there");
}

#[test]
fn command_line_words_form_the_first_prompt() {
    assert_eq!(first_prompt(&vec![]), "");
    assert_eq!(
        first_prompt(&vec!["how".to_string(), "tall".to_string(), "is".to_string()]),
        "how tall is"
    );
}

#[test]
fn replies_are_shown_only_with_text() {
    assert!(has_text(" hi "));
    assert!(!has_text(" \n\t"));
    assert!(!has_text(""));
}

#[test]
fn a_failed_request_leaves_the_transcript_as_it_was() {
    let mut messages = vec![system_message()];
    let (mut turn, action) = Turn::begin(&mut messages, "list files");
    assert!(matches!(action, TurnAction::Request));
    assert_eq!(messages.len(), 2);
    let action = turn.on_reply(&mut messages, String::new(), vec![call("c1")]);
    match action {
        TurnAction::RunTool { call, first } => {
            assert_eq!(call.id, "c1");
            assert!(first);
        }
        _ => panic!("expected a tool to run"),
    }
    let action = turn.on_tool_result(&mut messages, Ok("a.txt".to_string()));
    assert!(matches!(action, TurnAction::Request));
    assert_eq!(messages.len(), 4);
    match &messages[3] {
        Message::Tool { tool_call_id, content } => {
            assert_eq!(tool_call_id, "c1");
            assert_eq!(content, "a.txt");
        }
        _ => panic!("expected a tool message"),
    }
    turn.abort(&mut messages);
    assert_eq!(messages.len(), 1);
    assert!(matches!(messages[0], Message::System { .. }));
}

#[test]
fn requests_are_limited_to_eight_rounds() {
    let mut messages = vec![system_message()];
    let (mut turn, mut action) = Turn::begin(&mut messages, "loop");
    let mut replies = 0;
    loop {
        action = match action {
            TurnAction::Request => {
                replies += 1;
                turn.on_reply(&mut messages, String::new(), vec![call("again")])
            }
            TurnAction::RunTool { .. } => turn.on_tool_result(&mut messages, Ok(String::new())),
            TurnAction::Finish => panic!("the request never completes"),
            TurnAction::Fail => break,
        };
    }
    assert_eq!(replies, 8);
    assert_eq!(MAX_TOOL_ROUNDS, 8);
    assert_eq!(messages.len(), 1);
    assert_eq!(round_limit_message(), "tool-call limit reached");
    assert_eq!(tool_error_result("path is required"), "tool error: path is required");
}

#[test]
fn each_call_is_answered_in_order_before_the_next_reply() {
    let mut messages = vec![system_message()];
    let (mut turn, _) = Turn::begin(&mut messages, "read two files");
    match turn.on_reply(&mut messages, "Reading.".to_string(), vec![call("c1"), call("c2")]) {
        TurnAction::RunTool { call, first } => {
            assert_eq!(call.id, "c1");
            assert!(first);
        }
        _ => panic!("expected the first call"),
    }
    match turn.on_tool_result(&mut messages, Err("path is required".to_string())) {
        TurnAction::RunTool { call, first } => {
            assert_eq!(call.id, "c2");
            assert!(!first);
        }
        _ => panic!("expected the second call"),
    }
    assert!(matches!(turn.on_tool_result(&mut messages, Ok("two".to_string())), TurnAction::Request));
    match turn.on_reply(&mut messages, "Another.".to_string(), vec![call("c3")]) {
        TurnAction::RunTool { call, first } => {
            assert_eq!(call.id, "c3");
            assert!(!first);
        }
        _ => panic!("expected the third call"),
    }
    assert!(matches!(turn.on_tool_result(&mut messages, Ok("three".to_string())), TurnAction::Request));
    assert!(matches!(turn.on_reply(&mut messages, "Done.".to_string(), Vec::new()), TurnAction::Finish));
    assert_eq!(messages.len(), 8);
    assert!(matches!(&messages[1], Message::User { content } if content == "read two files"));
    assert!(matches!(&messages[2], Message::Assistant { tool_calls: Some(calls), .. } if calls.len() == 2));
    assert!(matches!(&messages[3], Message::Tool { tool_call_id, content }
        if tool_call_id == "c1" && content == "tool error: path is required"));
    assert!(matches!(&messages[4], Message::Tool { tool_call_id, content }
        if tool_call_id == "c2" && content == "two"));
    assert!(matches!(&messages[5], Message::Assistant { tool_calls: Some(calls), .. } if calls.len() == 1));
    assert!(matches!(&messages[6], Message::Tool { tool_call_id, .. } if tool_call_id == "c3"));
    assert!(matches!(&messages[7], Message::Assistant { content: Some(text), tool_calls: None }
        if text == "Done."));
}

#[test]
fn a_reply_without_calls_finishes_at_once() {
    let mut messages = Vec::new();
    let (mut turn, _) = Turn::begin(&mut messages, "hello");
    assert!(matches!(turn.on_reply(&mut messages, "Hi.".to_string(), Vec::new()), TurnAction::Finish));
    assert_eq!(messages.len(), 2);
}

#[test]
fn guidance_comes_from_markdown_files() {
    assert!(is_guidance_name("project.md"));
    assert!(!is_guidance_name("notes.txt"));
    assert!(!is_guidance_name(".md"));
    assert!(!is_guidance_name("readme.MD"));
    assert!(guidance_size_ok(1_000_000));
    assert!(!guidance_size_ok(1_000_001));
    assert!(guidance_message(&Vec::new()).is_none());
    let files = vec![
        GuidanceFile { path: "project.md".to_string(), content: "Use tabs.".to_string() },
        GuidanceFile { path: "frontend/style.md".to_string(), content: "No jQuery.".to_string() },
    ];
    match guidance_message(&files) {
        Some(Message::System { content }) => assert_eq!(
            content,
            "Local project guidance from the .deep directory. Follow it when working in this project.\n\n# project.md\n\nUse tabs.\n\n# frontend/style.md\n\nNo jQuery."
        ),
        _ => panic!("expected a system message"),
    }
}

fn candidate(path: &str, size: u64, bytes: &[u8]) -> GuidanceCandidate {
    let name = path.rsplit('/').next().unwrap().to_string();
    GuidanceCandidate { path: path.to_string(), name, size, bytes: bytes.to_vec() }
}

#[test]
fn guidance_files_are_markdown_utf8_and_in_path_order() {
    let candidates = vec![
        candidate("project.md", 9, b"Use tabs."),
        candidate("notes.txt", 5, b"notes"),
        candidate("big.md", 1_000_001, b"too big"),
        candidate("binary.md", 2, &[0xff, 0xfe]),
        candidate("frontend/style.md", 10, b"No jQuery."),
        candidate("conventions.md", 6, b"Short."),
    ];
    let files = guidance_files(&candidates);
    let paths: Vec<&str> = files.iter().map(|f| f.path.as_str()).collect();
    assert_eq!(paths, vec!["conventions.md", "frontend/style.md", "project.md"]);
    assert_eq!(files[0].content, "Short.");
    assert_eq!(files[2].content, "Use tabs.");
    assert!(guidance_files(&Vec::new()).is_empty());
}
