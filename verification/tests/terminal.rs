use ds_cli::terminal::{
    choose_model, codex_markdown, confirm_shell, confirm_write, escape_default, is_markdown_block,
    model_menu, parse_usize, prompt_for_key, prompt_label, separator,
    write_question, ChooseError, KeyError,
};

#[test]
fn separator_matches_terminal_width() {
    assert_eq!(separator(4), "────");
}

#[test]
fn separator_is_at_least_one_wide() {
    assert_eq!(separator(0), "─");
    assert_eq!(separator(1), "─");
}

#[test]
fn prose_gets_codex_bullets_without_changing_lists_or_code() {
    let markdown = "First paragraph.\n\n- Existing item\n\n```sh\necho 5\n```";
    assert_eq!(
        codex_markdown(markdown),
        "- First paragraph.\n\n- Existing item\n\n```sh\necho 5\n```\n"
    );
}

#[test]
fn only_paragraph_starts_get_bullets() {
    let markdown = "one\ntwo\n\n# Title\n> quote\n\n1. first\n\nlast\r\n";
    assert_eq!(
        codex_markdown(markdown),
        "- one\ntwo\n\n# Title\n> quote\n\n1. first\n\n- last\n"
    );
}

#[test]
fn code_blocks_are_left_alone() {
    let markdown = "```\n\nplain in code\n```\n\nafter";
    assert_eq!(codex_markdown(markdown), "```\n\nplain in code\n```\n\n- after\n");
    assert_eq!(codex_markdown(""), "");
}

#[test]
fn markdown_blocks_are_recognised() {
    assert!(is_markdown_block("  # heading"));
    assert!(is_markdown_block("* item"));
    assert!(is_markdown_block("+ item"));
    assert!(is_markdown_block("7) seven"));
    assert!(!is_markdown_block("-dash"));
    assert!(!is_markdown_block("plain"));
}

#[test]
fn only_y_confirms() {
    assert!(confirm_write("y\n"));
    assert!(confirm_write("  Y "));
    assert!(!confirm_write("yes"));
    assert!(!confirm_write(""));
    assert!(confirm_shell("y"));
    assert!(!confirm_shell("n"));
}

#[test]
fn questions_and_prompts() {
    assert_eq!(write_question("/w/a.txt"), "Allow write to /w/a.txt? [y/N] ");
    assert_eq!(prompt_label("deepseek-chat"), "[deepseek-chat] > ");
}

#[test]
fn commands_are_escaped_for_approval() {
    assert_eq!(escape_default("printf 'ok'\n"), "printf \\'ok\\'\\n");
    assert_eq!(escape_default("a\\b\t\"é"), "a\\\\b\\t\\\"\\u{e9}");
}

#[test]
fn api_key_must_be_one_nonempty_line() {
    assert_eq!(prompt_for_key("sk-1".to_string()).ok().as_deref(), Some("sk-1"));
    for bad in ["", "a\nb", "a\r"] {
        match prompt_for_key(bad.to_string()) {
            Ok(_) => panic!("accepted {bad:?}"),
            Err(e) => {
                assert!(matches!(e, KeyError::Invalid));
                assert_eq!(e.message(), "a non-empty, single-line API key is required");
            }
        }
    }
}

#[test]
fn numbers_parse_like_usize() {
    assert_eq!(parse_usize("12"), Some(12));
    assert_eq!(parse_usize("+3"), Some(3));
    assert_eq!(parse_usize("0"), Some(0));
    assert_eq!(parse_usize(""), None);
    assert_eq!(parse_usize("+"), None);
    assert_eq!(parse_usize("-1"), None);
    assert_eq!(parse_usize("1x"), None);
    assert_eq!(parse_usize("99999999999999999999999"), None);
}

#[test]
fn model_choice() {
    let models = vec!["deepseek-chat".to_string(), "deepseek-reasoner".to_string()];
    assert_eq!(choose_model(&models, "deepseek-chat", "\n").ok().as_deref(), Some("deepseek-chat"));
    assert_eq!(
        choose_model(&models, "deepseek-chat", " 2 ").ok().as_deref(),
        Some("deepseek-reasoner")
    );
    assert_eq!(choose_model(&models, "deepseek-reasoner", "0").ok().as_deref(), Some("deepseek-chat"));
    for bad in ["3", "two", "-1"] {
        match choose_model(&models, "deepseek-chat", bad) {
            Ok(m) => panic!("accepted {bad:?} as {m}"),
            Err(e) => {
                assert!(matches!(e, ChooseError::NotListed));
                assert_eq!(e.message(), "choose a listed model number");
            }
        }
    }
}

#[test]
fn model_menu_marks_the_current_model() {
    let models = vec!["deepseek-chat".to_string(), "deepseek-reasoner".to_string()];
    assert_eq!(
        model_menu(&models, "deepseek-reasoner"),
        vec!["  1. deepseek-chat".to_string(), "  2. deepseek-reasoner (current)".to_string()]
    );
}

#[test]
fn formatting_twice_changes_nothing() {
    let inputs = [
        "First paragraph.\n\n- Existing item\n\n```sh\necho 5\n```",
        "one\ntwo\n\n  three\n# Title\n1. item\n```\n\ncode\n```\n\nend",
        "",
        "\n\n",
    ];
    for markdown in inputs {
        let once = codex_markdown(markdown);
        assert_eq!(codex_markdown(&once), once);
    }
}
