use codex_route::json::parse_json;
use codex_route::provider::{Provider, ProviderSource};
use codex_route::provider_store::ProviderStore;
use codex_route::route::{
    extract_codex_session_id, filter_request_headers, upstream_endpoint_url, upstream_responses_url, validate_selection,
    HeaderEntry, RouteStartupError,
};

fn provider(id: &str, base_url: &str, wire_api: Option<&str>, credential: Option<&str>) -> Provider {
    let mut config = format!("model_provider = \\\"custom\\\"\\n[model_providers.custom]\\nbase_url = \\\"{base_url}\\\"\\n");
    if let Some(wire_api) = wire_api {
        config.push_str(&format!("wire_api = \\\"{wire_api}\\\"\\n"));
    }
    let settings = match credential {
        Some(credential) => format!("{{\"config\":\"{config}\",\"auth\":{{\"OPENAI_API_KEY\":\"{credential}\"}}}}"),
        None => format!("{{\"config\":\"{config}\"}}"),
    };
    Provider {
        id: id.to_string(),
        name: id.to_string(),
        settings_config: settings,
        website_url: None,
        category: None,
        created_at: None,
        sort_index: None,
        notes: None,
        icon: None,
        icon_color: None,
        meta: "{}".to_string(),
        in_failover_queue: false,
        is_current: true,
        source: ProviderSource::Local,
    }
}

fn store_with(provider: Provider) -> ProviderStore {
    let mut store = ProviderStore::from_rows("/tmp/codex-route.db".to_string(), Vec::new(), Vec::new()).unwrap();
    store.insert(&provider, 1).unwrap();
    store
}

fn header(name: &str, value: &str) -> HeaderEntry {
    HeaderEntry { name: name.to_string(), value: value.as_bytes().to_vec() }
}

#[test]
fn upstream_url_appends_responses_without_double_slashes() {
    assert_eq!(
        upstream_responses_url("https://api.example/v1/", Some("stream=true")).unwrap().as_str(),
        "https://api.example/v1/responses?stream=true"
    );
    assert!(upstream_responses_url("not-an-url", None).is_err());
    assert_eq!(
        upstream_endpoint_url("https://api.example/v1//", "/responses/compact", None).unwrap(),
        "https://api.example/v1/responses/compact"
    );
}

#[test]
fn extracts_codex_session_from_header_or_metadata_without_using_previous_response_id() {
    let headers = vec![header("session_id", "header-session")];
    let body = parse_json(br#"{"metadata":{"session_id":"body-session"}}"#).unwrap();
    assert_eq!(extract_codex_session_id(&headers, &body), Some("header-session".to_string()));

    let empty: Vec<HeaderEntry> = Vec::new();
    let body = parse_json(br#"{"metadata":{"session_id":"body-session"},"previous_response_id":"resp-1"}"#).unwrap();
    assert_eq!(extract_codex_session_id(&empty, &body), Some("body-session".to_string()));
    let body = parse_json(br#"{"previous_response_id":"resp-1"}"#).unwrap();
    assert_eq!(extract_codex_session_id(&empty, &body), None);
}

#[test]
fn request_filter_removes_client_auth_and_hop_by_hop_headers() {
    let input = vec![
        header("authorization", "Bearer client"),
        header("host", "localhost"),
        header("content-type", "application/json"),
        header("x-request-id", "request-1"),
    ];
    let output = filter_request_headers(&input, Some("provider-secret")).unwrap();
    let value = |name: &str| output.iter().find(|h| h.name == name).map(|h| h.value.clone());
    assert!(value("host").is_none());
    assert_eq!(value("content-type"), Some(b"application/json".to_vec()));
    assert_eq!(value("x-request-id"), Some(b"request-1".to_vec()));
    assert_eq!(value("authorization"), Some(b"Bearer provider-secret".to_vec()));
}

#[test]
fn startup_validation_reports_provider_configuration_categories() {
    let missing_url = store_with(provider("missing-url", "", Some("responses"), Some("sk-test")));
    assert!(matches!(
        validate_selection(&missing_url, None),
        Err(RouteStartupError::MissingBaseUrl(id)) if id == "missing-url"
    ));

    let missing_credential = store_with(provider("missing-credential", "https://api.example/v1", Some("responses"), None));
    assert!(matches!(
        validate_selection(&missing_credential, None),
        Err(RouteStartupError::MissingCredential(id)) if id == "missing-credential"
    ));

    let invalid_url = store_with(provider("invalid-url", "not-an-url", Some("responses"), Some("sk-test")));
    assert!(matches!(
        validate_selection(&invalid_url, None),
        Err(RouteStartupError::InvalidBaseUrl(id)) if id == "invalid-url"
    ));

    let good = store_with(provider("good", "https://api.example/v1", None, Some("sk-test")));
    assert!(validate_selection(&good, None).is_ok());
    assert!(matches!(
        validate_selection(&good, Some("other")),
        Err(RouteStartupError::ProviderNotFound(id)) if id == "other"
    ));
}
