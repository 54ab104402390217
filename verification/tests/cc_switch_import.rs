use codex_route::cc_switch_import::{
    build_query, check_provider_columns, scan_rows, CcSwitchImportError, CcSwitchImporter, ConflictPolicy, SourceRow,
};
use codex_route::provider_store::ProviderStore;

fn row(id: &str, name: &str, settings_config: &str, meta: &str, is_current: bool) -> SourceRow {
    SourceRow {
        id: id.to_string(),
        name: name.to_string(),
        settings_config: settings_config.to_string(),
        website_url: None,
        category: None,
        created_at: None,
        sort_index: None,
        notes: None,
        icon: None,
        icon_color: None,
        meta: meta.to_string(),
        in_failover_queue: false,
        is_current,
    }
}

/// The codex rows of the source database, as the provider query returns them.
fn codex_rows() -> Vec<SourceRow> {
    vec![
        row(
            "good",
            "Good",
            r#"{"auth":{"OPENAI_API_KEY":"sk-source-secret"},"config":"model_provider = \"custom\"\n[model_providers.custom]\nbase_url = \"https://example.test/v1\""}"#,
            "{}",
            true,
        ),
        row("keyless", "Keyless", r#"{"config":"model = \"gpt-5-codex\""}"#, r#"{"providerType":"codex_oauth"}"#, false),
        row("broken", "Broken", r#"{"config":"not = [valid"}"#, "{}", false),
        row("placeholder", "Placeholder", r#"{"auth":{"OPENAI_API_KEY":"PROXY_MANAGED"}}"#, "{}", false),
    ]
}

#[test]
fn query_contains_codex_filter_and_optional_columns() {
    let columns: Vec<String> =
        ["id", "app_type", "name", "settings_config", "meta"].into_iter().map(String::from).collect();
    let query = build_query(&columns);
    assert!(query.contains("WHERE app_type = ?1"));
    assert!(query.contains("NULL AS website_url"));
}

#[test]
fn missing_required_columns_are_a_schema_error() {
    let columns: Vec<String> = ["id", "name"].into_iter().map(String::from).collect();
    assert!(matches!(check_provider_columns(&columns), Err(CcSwitchImportError::Schema(_))));
    let complete: Vec<String> =
        ["id", "app_type", "name", "settings_config", "meta"].into_iter().map(String::from).collect();
    assert!(check_provider_columns(&complete).is_ok());
}

#[test]
fn scans_only_codex_rows_and_leaves_source_unchanged() {
    let scan = scan_rows("/tmp/cc-switch.db".to_string(), codex_rows());
    assert_eq!(scan.candidates.len(), 2);
    assert_eq!(scan.rejected.len(), 2);
    assert!(scan.candidates.iter().all(|candidate| candidate.provider.source.source_id().is_some_and(|id| id != "other-app-row")));
    assert!(scan.candidates[0].source_is_current);
    assert_eq!(scan.rejected[0].id, "broken");
    assert_eq!(scan.rejected[1].id, "placeholder");
}

#[test]
fn imports_only_selected_cc_switch_providers() {
    let scan = scan_rows("/tmp/cc-switch.db".to_string(), codex_rows());
    let selected = scan.select_provider_ids(&vec!["keyless".to_string()]).unwrap();
    let mut store = ProviderStore::from_rows("/tmp/codex-route.db".to_string(), Vec::new(), Vec::new()).unwrap();
    let report = store.import_scan_transaction(&selected, ConflictPolicy::Skip, 10).unwrap();

    assert_eq!(report.imported, 1);
    assert_eq!(report.rejected.len(), 2);
    let providers = store.list();
    assert_eq!(providers.len(), 1);
    assert_eq!(providers[0].source.source_id(), Some("keyless"));
}

#[test]
fn rejects_provider_ids_that_are_not_in_the_latest_scan() {
    let scan = scan_rows("/tmp/cc-switch.db".to_string(), codex_rows());
    let error = scan.select_provider_ids(&vec!["missing".to_string()]).unwrap_err();
    assert!(matches!(error, CcSwitchImportError::UnknownProviders(ids) if ids == vec!["missing".to_string()]));
    assert_eq!(
        CcSwitchImportError::UnknownProviders(vec!["a".to_string(), "b".to_string()]).message(),
        "selected cc-switch providers were not found: a, b"
    );
}

#[test]
fn default_database_lives_under_the_home_directory() {
    assert_eq!(CcSwitchImporter::discover_default_db(Some("/home/me")), "/home/me/.cc-switch/cc-switch.db");
    assert_eq!(CcSwitchImporter::new("/tmp/x.db").db_path(), "/tmp/x.db");
}
