use codex_route::codex_provider::{
    extract_active_base_url, extract_active_wire_api, extract_codex_api_key, is_cc_switch_proxy_url,
    is_responses_wire_api, validate_codex_provider, CodexValidationError,
};
use codex_route::json::{parse_json, JsonValue};

fn json(text: &str) -> JsonValue {
    parse_json(text.as_bytes()).expect("valid JSON")
}

#[test]
fn active_provider_wins_over_inactive_provider() {
    let config = r#"
model_provider = "active"
[model_providers.active]
base_url = "https://active.example/v1"
[model_providers.inactive]
base_url = "https://inactive.example/v1"
"#;
    assert_eq!(extract_active_base_url(config).as_deref(), Some("https://active.example/v1"));
}

#[test]
fn rejects_proxy_placeholder_but_accepts_loopback_with_key() {
    let placeholder = json(
        r#"{"auth":{"OPENAI_API_KEY":"PROXY_MANAGED"},"config":"model_provider = \"custom\"\n[model_providers.custom]\nbase_url = \"https://example.test/v1\""}"#,
    );
    assert!(matches!(validate_codex_provider(&placeholder), Err(CodexValidationError::ProxyManagedCredential)));

    let local = json(r#"{"auth":{"OPENAI_API_KEY":"sk-local"},"config":"base_url = \"http://127.0.0.1:9000/v1\""}"#);
    assert!(validate_codex_provider(&local).is_ok());
}

#[test]
fn active_provider_wire_api_is_selected_over_inactive_provider() {
    let config = r#"
model_provider = "custom"
wire_api = "chat"
[model_providers.custom]
wire_api = "RESPONSES"
[model_providers.other]
wire_api = "anthropic"
"#;
    assert_eq!(extract_active_wire_api(config).as_deref(), Some("responses"));
    assert!(is_responses_wire_api(config));
}

#[test]
fn missing_wire_api_defaults_to_responses() {
    assert!(is_responses_wire_api("model_provider = \"custom\""));
}

#[test]
fn chat_wire_api_is_not_supported_by_the_route() {
    assert!(!is_responses_wire_api("wire_api = \"chat\""));
}

#[test]
fn validation_errors_name_the_broken_part() {
    assert_eq!(validate_codex_provider(&json("[1]")), Err(CodexValidationError::SettingsNotObject));
    assert_eq!(validate_codex_provider(&json(r#"{"config":3}"#)), Err(CodexValidationError::ConfigNotString));
    assert_eq!(
        validate_codex_provider(&json(r#"{"config":"not = [valid"}"#)),
        Err(CodexValidationError::InvalidConfigToml)
    );
    assert_eq!(
        validate_codex_provider(&json(r#"{"config":"model_provider = 3"}"#)),
        Err(CodexValidationError::ModelProviderNotString)
    );
    assert_eq!(
        validate_codex_provider(&json(r#"{"auth":{"OPENAI_API_KEY":"sk-x"},"config":"base_url = \"http://127.0.0.1:15721/v1\""}"#)),
        Err(CodexValidationError::ProxyPlaceholderRoute)
    );
    assert_eq!(CodexValidationError::ProxyManagedCredential.message(), "PROXY_MANAGED is not an importable credential");
}

#[test]
fn proxy_urls_are_recognized_in_any_case() {
    assert!(is_cc_switch_proxy_url("  HTTP://LOCALHOST:15721/v1 "));
    assert!(is_cc_switch_proxy_url("https://example.test/cc-switch-proxy/v1"));
    assert!(!is_cc_switch_proxy_url("https://example.test/v1"));
}

#[test]
fn api_key_comes_from_the_auth_object() {
    let settings = json(r#"{"auth":{"OPENAI_API_KEY":"  sk-abc  "}}"#);
    assert_eq!(extract_codex_api_key(&settings, None).as_deref(), Some("sk-abc"));
}
