use codex_route::json::{json_text, parse_json};
use codex_route::secrets::{redact_json_secrets, secret_key};

#[test]
fn secret_values_are_redacted_at_any_depth() {
    let value = parse_json(
        br#"{"id":"p1","settings_config":{"auth":{"OPENAI_API_KEY":"sk-real"},"nested":[{"apiKey":"x","keep":1}]},"meta":{}}"#,
    )
    .unwrap();
    let redacted = redact_json_secrets(&value);
    let text = json_text(&redacted).unwrap();
    assert!(!text.contains("sk-real"));
    assert!(text.contains("\"OPENAI_API_KEY\":\"[REDACTED]\""));
    assert!(text.contains("\"apiKey\":\"[REDACTED]\""));
    assert!(text.contains("\"keep\":1"));
    assert!(text.contains("\"id\":\"p1\""));
}

#[test]
fn config_toml_secrets_are_redacted_and_other_text_kept() {
    let value = parse_json(
        br#"{"config":"model_provider = \"custom\"\n[model_providers.custom]\nexperimental_bearer_token = \"tok-secret\"\n"}"#,
    )
    .unwrap();
    let text = json_text(&redact_json_secrets(&value)).unwrap();
    assert!(!text.contains("tok-secret"));
    assert!(text.contains("[REDACTED]"));
    assert!(text.contains("custom"));

    let broken = parse_json(br#"{"config":"not = [valid"}"#).unwrap();
    assert_eq!(json_text(&redact_json_secrets(&broken)).unwrap(), r#"{"config":"not = [valid"}"#);
}

#[test]
fn only_known_keys_are_secret() {
    assert!(secret_key("refresh_token"));
    assert!(secret_key("experimental_bearer_token"));
    assert!(!secret_key("base_url"));
}
