use sigmarift::model::{
    is_successful_health_response, llama_server_version, parse_llama_server_version,
    select_startup_model, server_args, AvailableModel, ModelParameters, StartupModelSelection,
    DEFAULT_MODEL_NAME,
};

fn model(name: &str) -> AvailableModel {
    AvailableModel::new(name).unwrap()
}

#[test]
fn llama_server_version_is_parsed_from_runtime_output() {
    assert_eq!(
        parse_llama_server_version("version: 1.2.3-dev (build 4, commit abc123)\n").as_deref(),
        Some("1.2.3-dev")
    );
}

#[test]
fn version_falls_back_to_stderr_and_then_to_unknown() {
    assert_eq!(llama_server_version(true, "", "version: 9.9 (build)\n"), "9.9");
    assert_eq!(llama_server_version(true, "nothing here", ""), "unknown");
    assert_eq!(llama_server_version(false, "version: 1.0\n", ""), "unknown");
}

#[test]
fn no_models_blocks_startup() {
    assert_eq!(
        select_startup_model(Vec::new(), DEFAULT_MODEL_NAME),
        StartupModelSelection::NoUsableModels
    );
}

#[test]
fn one_model_is_selected_without_a_selector() {
    let only_model = model("only.gguf");
    assert_eq!(
        select_startup_model(vec![only_model.clone()], DEFAULT_MODEL_NAME),
        StartupModelSelection::Selected(only_model)
    );
}

#[test]
fn multiple_models_keep_the_default_at_the_cursor() {
    let result = select_startup_model(
        vec![model("E2B.gguf"), model(DEFAULT_MODEL_NAME)],
        DEFAULT_MODEL_NAME,
    );

    assert_eq!(
        result,
        StartupModelSelection::SelectionRequired {
            models: vec![model("E2B.gguf"), model(DEFAULT_MODEL_NAME)],
            selected_index: 1,
        }
    );
}

#[test]
fn missing_default_puts_the_cursor_on_the_first_model() {
    let result = select_startup_model(vec![model("a.gguf"), model("b.gguf")], "c.gguf");

    assert!(matches!(
        result,
        StartupModelSelection::SelectionRequired { selected_index: 0, .. }
    ));
}

#[test]
fn server_arguments_keep_the_runtime_local_and_disable_the_web_ui() {
    let args = server_args(&model("model.gguf"), &ModelParameters::default(), 8123);

    assert_eq!(args[0..2], ["--model", "model.gguf"]);
    assert!(args.windows(2).any(|pair| pair == ["--host", "127.0.0.1"]));
    assert!(args.windows(2).any(|pair| pair == ["--port", "8123"]));
    assert!(args.contains(&"--no-ui".to_owned()));
    assert!(args.windows(2).any(|pair| pair == ["--ctx-size", "8192"]));
}

#[test]
fn context_size_must_be_positive() {
    assert!(ModelParameters {
        context_size: 0,
        ..ModelParameters::default()
    }
    .validate()
    .is_err());
}

#[test]
fn default_parameters_are_valid() {
    let parameters = ModelParameters::default();

    assert_eq!(parameters.default_model, DEFAULT_MODEL_NAME);
    assert_eq!(parameters.context_size, 8192);
    assert!(parameters.validate().is_ok());
}

#[test]
fn health_response_requires_a_success_status() {
    assert!(is_successful_health_response("HTTP/1.1 200 OK\r\n\r\n{}"));
    assert!(!is_successful_health_response(
        "HTTP/1.1 503 Service Unavailable\r\n\r\n"
    ));
    assert!(is_successful_health_response("HTTP/1.0 200 OK\r\n\r\n"));
}
