use codex_route::cc_switch_import::{scan_rows, ConflictPolicy, SourceRow};
use codex_route::client::{
    cc_switch_scan_report, diagnostics_summary, import_provider_ids, parse_language_preference, parse_theme_preference,
    required_provider_id, restart_decision, tray_tooltip, DiagnosticSeverity, LanguagePreference, RestartDecision,
    RuntimePhase, ThemePreference,
};
use codex_route::diagnostics::DiagnosticsStore;
use codex_route::provider_store::ProviderStore;

fn row(id: &str, name: &str, settings_config: &str) -> SourceRow {
    SourceRow {
        id: id.to_string(),
        name: name.to_string(),
        settings_config: settings_config.to_string(),
        website_url: None,
        category: Some("custom".to_string()),
        created_at: None,
        sort_index: None,
        notes: None,
        icon: None,
        icon_color: None,
        meta: "{}".to_string(),
        in_failover_queue: false,
        is_current: false,
    }
}

fn rows() -> Vec<SourceRow> {
    vec![
        row("one", "One", r#"{"auth":{"OPENAI_API_KEY":"sk-one"},"config":"model = \"gpt-5\""}"#),
        row("two", "Two", r#"{"auth":{"OPENAI_API_KEY":"sk-two"},"config":"model = \"gpt-5\""}"#),
        row("broken", "Broken", r#"{"config":"not = [valid"}"#),
    ]
}

#[test]
fn summary_counts_non_informational_records_and_takes_the_first_error() {
    let mut store = DiagnosticsStore::new();
    store.record(DiagnosticSeverity::Info, "a", "started", "s", &Vec::new(), 10);
    store.record(DiagnosticSeverity::Warning, "b", "slow", "s", &Vec::new(), 20);
    store.record(DiagnosticSeverity::Error, "c", "first failure", "s", &Vec::new(), 30);
    store.record(DiagnosticSeverity::Error, "d", "second failure", "s", &Vec::new(), 40);
    let records = store.recent(200);
    let summary = diagnostics_summary(&records, &Some("runtime failed".to_string()));
    assert_eq!(summary.unread_count, 3);
    assert_eq!(summary.last_error.as_deref(), Some(records.iter().find(|r| r.severity == DiagnosticSeverity::Error).unwrap().message.as_str()));
}

#[test]
fn summary_falls_back_to_the_runtime_error() {
    let mut store = DiagnosticsStore::new();
    store.record(DiagnosticSeverity::Info, "a", "started", "s", &Vec::new(), 10);
    let records = store.recent(200);
    let summary = diagnostics_summary(&records, &Some("runtime failed".to_string()));
    assert_eq!(summary.unread_count, 0);
    assert_eq!(summary.last_error.as_deref(), Some("runtime failed"));
    let empty = diagnostics_summary(&Vec::new(), &None);
    assert_eq!(empty.unread_count, 0);
    assert_eq!(empty.last_error, None);
}

#[test]
fn import_ids_are_trimmed_and_blank_ones_dropped() {
    let ids = import_provider_ids(&vec![" a ".to_string(), "   ".to_string(), "b".to_string()]).unwrap();
    assert_eq!(ids, vec!["a".to_string(), "b".to_string()]);
    assert_eq!(
        import_provider_ids(&vec![" ".to_string()]).unwrap_err(),
        "providerIds must contain at least one provider"
    );
    assert_eq!(import_provider_ids(&Vec::new()).unwrap_err(), "providerIds must contain at least one provider");
}

#[test]
fn provider_id_is_trimmed_and_must_not_be_blank() {
    assert_eq!(required_provider_id("  relay ").unwrap(), "relay");
    assert_eq!(required_provider_id(" \t ").unwrap_err(), "providerId must not be empty");
}

#[test]
fn scan_report_marks_providers_that_were_already_imported() {
    let scan = scan_rows("/tmp/cc-switch.db".to_string(), rows());
    let selected = scan.select_provider_ids(&vec!["one".to_string()]).unwrap();
    let mut store = ProviderStore::from_rows("/tmp/codex-route.db".to_string(), Vec::new(), Vec::new()).unwrap();
    store.import_scan_transaction(&selected, ConflictPolicy::Skip, 10).unwrap();

    let report = cc_switch_scan_report(&store, scan_rows("/tmp/cc-switch.db".to_string(), rows()));
    assert_eq!(report.source, "/tmp/cc-switch.db");
    assert_eq!(report.providers.len(), 2);
    assert_eq!(report.providers[0].id, "one");
    assert_eq!(report.providers[0].name, "One");
    assert_eq!(report.providers[0].category.as_deref(), Some("custom"));
    assert!(report.providers[0].already_imported);
    assert_eq!(report.providers[1].id, "two");
    assert!(!report.providers[1].already_imported);
    assert_eq!(report.rejected.len(), 1);
    assert_eq!(report.rejected[0].id, "broken");
}

#[test]
fn invalid_preferences_fall_back_to_system() {
    assert_eq!(parse_language_preference("xx"), LanguagePreference::System);
    assert_eq!(parse_theme_preference("neon"), ThemePreference::System);
    assert_eq!(parse_language_preference("zh-TW"), LanguagePreference::ZhTw);
    assert_eq!(parse_theme_preference("dark"), ThemePreference::Dark);
}

#[test]
fn phase_labels_name_each_phase_and_the_tooltip_shows_it() {
    assert_eq!(RuntimePhase::Stopped.phase_label(), "stopped");
    assert_eq!(RuntimePhase::BlockedExternalModification.phase_label(), "protected");
    assert_eq!(RuntimePhase::Recovering.phase_label(), "recovering");
    assert_eq!(tray_tooltip(RuntimePhase::Running), "Codex Route · running");
}

#[test]
fn a_route_that_keeps_failing_is_restarted_five_times_then_given_up() {
    let mut count: u32 = 0;
    let mut retried = Vec::new();
    for _ in 0..7 {
        match restart_decision(count) {
            RestartDecision::Retry { attempt, .. } => {
                retried.push(attempt);
                count = attempt;
            },
            RestartDecision::GiveUp(next) => count = next,
        }
    }
    assert_eq!(retried, vec![1, 2, 3, 4, 5]);
    assert_eq!(count, 7);
}
