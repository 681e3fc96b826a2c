use ds_cli::config::{load, parse, path, render, Config, ConfigError};

#[test]
fn saved_supported_model_is_loaded() {
    let config = parse("DEEPSEEK_API_KEY=test\nDS_MODEL=deepseek-v4-pro\n");
    assert_eq!(config.api_key.as_deref(), Some("test"));
    assert_eq!(config.model, "deepseek-v4-pro");
}

#[test]
fn saved_config_loads_back() {
    let config = Config {
        api_key: Some("sk-abc=def".to_string()),
        model: "deepseek-chat".to_string(),
    };
    let text = render(&config);
    assert_eq!(text, "DEEPSEEK_API_KEY=sk-abc=def\nDS_MODEL=deepseek-chat\n");
    let back = load(Some(&text));
    assert_eq!(back.api_key.as_deref(), Some("sk-abc=def"));
    assert_eq!(back.model, "deepseek-chat");
}

#[test]
fn config_without_key_renders_only_the_model() {
    let config = Config { api_key: None, model: String::new() };
    assert_eq!(render(&config), "DS_MODEL=\n");
    let back = parse(&render(&config));
    assert_eq!(back.api_key, None);
    assert_eq!(back.model, "");
}

#[test]
fn missing_config_file_is_empty() {
    let config = load(None);
    assert_eq!(config.api_key, None);
    assert_eq!(config.model, "");
}

#[test]
fn later_lines_win_and_empty_model_is_ignored() {
    let config = parse("DS_MODEL=a\r\nDEEPSEEK_API_KEY=one\nDS_MODEL=\nnoise\n=x\nDEEPSEEK_API_KEY=two");
    assert_eq!(config.api_key.as_deref(), Some("two"));
    assert_eq!(config.model, "a");
}

#[test]
fn config_path_prefers_xdg_config_home() {
    match path(Some("/xdg"), Some("/home/me")) {
        Ok(p) => assert_eq!(p, "/xdg/ds/config"),
        Err(_) => panic!("expected a path"),
    }
    match path(Some("/xdg/"), None) {
        Ok(p) => assert_eq!(p, "/xdg/ds/config"),
        Err(_) => panic!("expected a path"),
    }
}

#[test]
fn config_path_falls_back_to_home() {
    match path(None, Some("/home/me")) {
        Ok(p) => assert_eq!(p, "/home/me/.config/ds/config"),
        Err(_) => panic!("expected a path"),
    }
}

#[test]
fn config_path_needs_a_home() {
    match path(None, None) {
        Ok(_) => panic!("expected an error"),
        Err(e) => {
            assert!(matches!(e, ConfigError::NoHomeDirectory));
            assert_eq!(e.message(), "could not find a home directory");
        }
    }
}
