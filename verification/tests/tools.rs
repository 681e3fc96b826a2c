use ds_cli::tools::{
    definitions, listing, plan, relative_path, DirEntry, ToolAction, ToolArguments, ToolCall,
    ToolError, ToolEvent, ToolRequest, ToolRun, Workspace,
};

fn args(path: Option<&str>, content: Option<&str>, command: Option<&str>) -> ToolArguments {
    ToolArguments {
        path: path.map(String::from),
        content: content.map(String::from),
        command: command.map(String::from),
    }
}

fn finished(action: ToolAction) -> Result<String, ToolError> {
    match action {
        ToolAction::Finish { result } => result,
        _ => panic!("expected the run to finish"),
    }
}

#[test]
fn rejects_parent_directory_paths() {
    assert!(relative_path("../secret").is_err());
}

#[test]
fn relative_paths_are_checked_by_component() {
    assert_eq!(relative_path("src/main.rs").ok(), Some("src/main.rs"));
    assert_eq!(relative_path("./a/.../b").ok(), Some("./a/.../b"));
    assert_eq!(relative_path("").ok(), Some(""));
    assert!(matches!(relative_path("/etc/passwd"), Err(ToolError::NotRelative)));
    assert!(relative_path("a/../../b").is_err());
    assert!(relative_path("a/..").is_err());
    assert!(relative_path("..").is_err());
}

#[test]
fn tool_calls_need_their_arguments() {
    assert!(matches!(
        plan("list_files", &args(None, None, None)),
        Ok(ToolRequest::ListFiles { ref path }) if path == "."
    ));
    assert!(matches!(plan("read_file", &args(None, None, None)), Err(ToolError::MissingPath)));
    assert!(matches!(
        plan("write_file", &args(Some("a"), None, None)),
        Err(ToolError::MissingContent)
    ));
    assert!(matches!(
        plan("write_file", &args(None, Some("x"), None)),
        Err(ToolError::MissingPath)
    ));
    assert!(matches!(
        plan("run_shell", &args(Some("a"), None, None)),
        Err(ToolError::MissingCommand)
    ));
    match plan("delete_everything", &args(None, None, None)) {
        Err(e) => assert_eq!(e.message(), "unknown tool: delete_everything"),
        Ok(_) => panic!("unknown tool accepted"),
    }
}

#[test]
fn offered_tools() {
    let defs = definitions();
    let names: Vec<&str> = defs.iter().map(|d| d.name.as_str()).collect();
    assert_eq!(names, ["list_files", "run_shell", "read_file", "write_file"]);
    assert_eq!(defs[3].required, ["path", "content"]);
    assert!(defs[0].required.is_empty());
    assert_eq!(defs[1].parameters, ["command"]);
}

#[test]
fn tool_call_default_is_empty() {
    let call = ToolCall::default();
    assert!(call.id.is_empty() && call.name.is_empty() && call.arguments.is_empty());
}

#[test]
fn write_requires_confirmation_and_stays_in_root() {
    let root = "/tmp/ds-cli-test";
    let workspace = Workspace::new(root.to_string());
    let call_args = args(Some("note.txt"), Some("hello"), None);

    let (mut run, action) = ToolRun::start(&workspace, "write_file", &call_args);
    assert!(matches!(action, ToolAction::CheckExists { ref path } if path == "/tmp/ds-cli-test/note.txt"));
    let action = run.step(ToolEvent::Answer(false));
    assert!(matches!(action, ToolAction::Canonicalize { ref path } if path == root));
    let action = run.step(ToolEvent::Path(root.to_string()));
    assert!(matches!(action, ToolAction::ConfirmWrite { ref path } if path == "/tmp/ds-cli-test/note.txt"));
    assert_eq!(finished(run.step(ToolEvent::Answer(false))).ok().as_deref(), Some("write cancelled by user"));
    assert!(run.finished());

    let (mut run, _) = ToolRun::start(&workspace, "write_file", &call_args);
    run.step(ToolEvent::Answer(false));
    run.step(ToolEvent::Path(root.to_string()));
    let action = run.step(ToolEvent::Answer(true));
    assert!(matches!(
        action,
        ToolAction::WriteFile { ref path, ref content } if path == "/tmp/ds-cli-test/note.txt" && content == "hello"
    ));
    assert_eq!(
        finished(run.step(ToolEvent::Done)).ok().as_deref(),
        Some("wrote 5 bytes to note.txt")
    );
}

#[test]
fn writes_outside_the_root_are_refused() {
    let workspace = Workspace::new("/tmp/ds-cli-test".to_string());
    let (mut run, _) = ToolRun::start(&workspace, "write_file", &args(Some("link/x"), Some("x"), None));
    run.step(ToolEvent::Answer(true));
    let result = finished(run.step(ToolEvent::Path("/etc/x".to_string())));
    assert!(matches!(result, Err(ToolError::OutsideWorkspace)));
    let (_, action) = ToolRun::start(&workspace, "write_file", &args(Some("/etc/x"), Some("x"), None));
    assert!(matches!(finished(action), Err(ToolError::NotRelative)));
}

#[test]
fn shell_requires_confirmation() {
    let workspace = Workspace::new("/tmp/ds-cli-test".to_string());
    let call_args = args(None, None, Some("printf ok"));
    let (mut run, action) = ToolRun::start(&workspace, "run_shell", &call_args);
    assert!(matches!(action, ToolAction::ConfirmShell { ref command } if command == "printf ok"));
    assert_eq!(
        finished(run.step(ToolEvent::Answer(false))).ok().as_deref(),
        Some("shell command cancelled by user")
    );
    let (mut run, _) = ToolRun::start(&workspace, "run_shell", &call_args);
    let action = run.step(ToolEvent::Answer(true));
    assert!(matches!(
        action,
        ToolAction::RunShell { ref command, ref dir } if command == "printf ok" && dir == "/tmp/ds-cli-test"
    ));
    let report = finished(run.step(ToolEvent::Output {
        status: "exit status: 0".to_string(),
        stdout: "ok".to_string(),
        stderr: String::new(),
    }))
    .ok()
    .unwrap();
    assert!(report.contains("stdout:\nok"));
    assert_eq!(report, "status: exit status: 0\nstdout:\nok\nstderr:\n");
}

#[test]
fn reads_check_file_and_size() {
    let workspace = Workspace::new("/w".to_string());
    let (mut run, action) = ToolRun::start(&workspace, "read_file", &args(Some("a.txt"), None, None));
    assert!(matches!(action, ToolAction::Canonicalize { ref path } if path == "/w/a.txt"));
    let action = run.step(ToolEvent::Path("/w/a.txt".to_string()));
    assert!(matches!(action, ToolAction::CheckIsFile { .. }));
    assert!(matches!(run.step(ToolEvent::Answer(true)), ToolAction::MeasureFile { .. }));
    assert!(matches!(finished(run.step(ToolEvent::Size(1_000_001))), Err(ToolError::TooLarge)));

    let (mut run, _) = ToolRun::start(&workspace, "read_file", &args(Some("a.txt"), None, None));
    run.step(ToolEvent::Path("/w/a.txt".to_string()));
    run.step(ToolEvent::Answer(true));
    assert!(matches!(run.step(ToolEvent::Size(1_000_000)), ToolAction::ReadFile { ref path } if path == "/w/a.txt"));
    assert_eq!(finished(run.step(ToolEvent::Text("hi".to_string()))).ok().as_deref(), Some("hi"));

    let (mut run, _) = ToolRun::start(&workspace, "read_file", &args(Some("d"), None, None));
    run.step(ToolEvent::Path("/w/d".to_string()));
    let result = finished(run.step(ToolEvent::Answer(false)));
    assert_eq!(result.err().unwrap().message(), "path is not a file");

    let (mut run, _) = ToolRun::start(&workspace, "read_file", &args(Some("up"), None, None));
    let result = finished(run.step(ToolEvent::Path("/wx/secret".to_string())));
    assert_eq!(result.err().unwrap().message(), "path is outside the working directory");
}

#[test]
fn listings_are_sorted_and_capped() {
    let entries = vec![
        DirEntry { name: "b".to_string(), is_dir: false },
        DirEntry { name: "a".to_string(), is_dir: true },
        DirEntry { name: "B".to_string(), is_dir: false },
    ];
    assert_eq!(listing(&entries), "B\na/\nb");
    assert_eq!(listing(&Vec::new()), "");
    let many: Vec<DirEntry> = (0..205)
        .map(|i| DirEntry { name: format!("f{i:03}"), is_dir: false })
        .collect();
    let text = listing(&many);
    let lines: Vec<&str> = text.lines().collect();
    assert_eq!(lines.len(), 201);
    assert_eq!(lines[0], "f000");
    assert_eq!(lines[199], "f199");
    assert_eq!(lines[200], "... (directory listing truncated)");
}

#[test]
fn listing_a_directory() {
    let workspace = Workspace::new("/w".to_string());
    let (mut run, action) = ToolRun::start(&workspace, "list_files", &args(None, None, None));
    assert!(matches!(action, ToolAction::Canonicalize { ref path } if path == "/w/."));
    let action = run.step(ToolEvent::Path("/w".to_string()));
    assert!(matches!(action, ToolAction::ListDirectory { ref path } if path == "/w"));
    let entries = vec![DirEntry { name: "src".to_string(), is_dir: true }];
    assert_eq!(finished(run.step(ToolEvent::Entries(entries))).ok().as_deref(), Some("src/"));
}

#[test]
fn paths_are_shown_from_the_root() {
    let workspace = Workspace::new("/w".to_string());
    assert_eq!(workspace.display_path("/w/src/a.rs"), "src/a.rs");
    assert_eq!(workspace.display_path("/other/a.rs"), "/other/a.rs");
    assert!(workspace.check_inside("/w/src").is_ok());
    assert!(workspace.check_inside("/wx").is_err());
    assert_eq!(workspace.join("a"), "/w/a");
}

#[test]
fn offered_tools_accept_exactly_their_required_arguments() {
    for definition in definitions() {
        let has = |p: &str| definition.required.iter().any(|r| r == p);
        let full = args(Some("a"), Some("b"), Some("c"));
        assert!(plan(&definition.name, &full).is_ok());
        for missing in ["path", "content", "command"] {
            let partial = args(
                if missing == "path" { None } else { Some("a") },
                if missing == "content" { None } else { Some("b") },
                if missing == "command" { None } else { Some("c") },
            );
            assert_eq!(plan(&definition.name, &partial).is_ok(), !has(missing));
        }
    }
}

fn raw_call(name: &str, arguments: &str) -> ToolCall {
    ToolCall { id: "c1".to_string(), name: name.to_string(), arguments: arguments.to_string() }
}

#[test]
fn argument_text_that_is_not_json_is_an_error() {
    let workspace = Workspace::new("/tmp/ds-cli-test".to_string());
    let (run, action) = ToolRun::start_call(&workspace, &raw_call("read_file", "{\"path\":"));
    assert!(run.finished());
    match finished(action) {
        Err(error) => {
            assert!(matches!(error, ToolError::InvalidArguments(_)));
            assert!(error.message().contains("EOF"));
        }
        Ok(_) => panic!("expected an error"),
    }
    let (_, action) = ToolRun::start_call(&workspace, &raw_call("list_files", "not json"));
    assert!(matches!(finished(action), Err(ToolError::InvalidArguments(_))));
}

#[test]
fn argument_text_is_read_before_the_tool_is_chosen() {
    let workspace = Workspace::new("/tmp/ds-cli-test".to_string());
    let (_, action) = ToolRun::start_call(&workspace, &raw_call("read_file", r#"{"path":"src/main.rs"}"#));
    assert!(matches!(action, ToolAction::Canonicalize { ref path } if path == "/tmp/ds-cli-test/src/main.rs"));
    let (_, action) = ToolRun::start_call(&workspace, &raw_call("read_file", r#"{"path":7}"#));
    assert_eq!(finished(action).err().map(|e| e.message()).as_deref(), Some("path is required"));
    let (_, action) = ToolRun::start_call(&workspace, &raw_call("read_file", "[1, 2]"));
    assert_eq!(finished(action).err().map(|e| e.message()).as_deref(), Some("path is required"));
    let (_, action) = ToolRun::start_call(&workspace, &raw_call("delete_all", "{}"));
    assert_eq!(finished(action).err().map(|e| e.message()).as_deref(), Some("unknown tool: delete_all"));
    let (_, action) = ToolRun::start_call(&workspace, &raw_call("list_files", "{}"));
    assert!(matches!(action, ToolAction::Canonicalize { ref path } if path == "/tmp/ds-cli-test/."));
    let (_, action) = ToolRun::start_call(
        &workspace,
        &raw_call("write_file", r#"{"path":"a.txt","content":"hi"}"#),
    );
    assert!(matches!(action, ToolAction::CheckExists { ref path } if path == "/tmp/ds-cli-test/a.txt"));
    let (_, action) = ToolRun::start_call(&workspace, &raw_call("run_shell", r#"{"command":"ls"}"#));
    assert!(matches!(action, ToolAction::ConfirmShell { ref command } if command == "ls"));
}
