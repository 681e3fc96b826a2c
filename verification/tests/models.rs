use ds_cli::models::{model_ids, models_from_body, ModelsError};

#[test]
fn model_ids_are_read_from_api_response() {
    let models = model_ids(Some(vec![Some("deepseek-chat".to_string())])).ok().unwrap();
    assert_eq!(models, ["deepseek-chat"]);
}

#[test]
fn entries_without_ids_are_skipped() {
    let models = model_ids(Some(vec![None, Some("a".to_string()), None, Some("b".to_string())]))
        .ok()
        .unwrap();
    assert_eq!(models, ["a", "b"]);
}

#[test]
fn missing_or_empty_model_lists_are_errors() {
    match model_ids(None) {
        Err(e) => {
            assert!(matches!(e, ModelsError::NoData));
            assert_eq!(e.message(), "DeepSeek models response has no data");
        }
        Ok(_) => panic!("expected an error"),
    }
    match model_ids(Some(vec![None])) {
        Err(e) => assert_eq!(e.message(), "DeepSeek returned no models"),
        Ok(_) => panic!("expected an error"),
    }
}

#[test]
fn model_names_are_read_from_the_response_body() {
    let models = models_from_body(r#"{"data": [{"id": "deepseek-chat"}, {"object": "model"}, {"id": "deepseek-reasoner"}]}"#)
        .ok()
        .unwrap();
    assert_eq!(models, ["deepseek-chat", "deepseek-reasoner"]);
    assert!(matches!(models_from_body(r#"{"object": "list"}"#), Err(ModelsError::NoData)));
    assert!(matches!(models_from_body(r#"{"data": []}"#), Err(ModelsError::NoModels)));
    match models_from_body("<html>") {
        Err(ModelsError::Json(message)) => assert!(!message.is_empty()),
        _ => panic!("expected a JSON error"),
    }
}
