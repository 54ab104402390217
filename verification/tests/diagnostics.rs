use codex_route::client::DiagnosticSeverity;
use codex_route::codex_projects::{load_saved_project_roots, project_roots, ProjectRootsError};
use codex_route::diagnostics::{redact, DiagnosticsStore, MAX_RECORDS};
use codex_route::index::{WorkspaceFact, WorkspaceFacts};

#[test]
fn redacts_bearer_and_known_secrets() {
    let mut store = DiagnosticsStore::new();
    let context = vec![("url".to_string(), "https://example.test?key=sk-secret".to_string())];
    let record = store.record_with_secrets(
        DiagnosticSeverity::Error,
        "upstream",
        "Authorization Bearer sk-secret",
        "route",
        &context,
        &vec!["sk-secret".to_string()],
        100,
    );
    assert!(!record.message.contains("sk-secret"));
    assert!(!record.context[0].1.contains("sk-secret"));
    assert!(record.message.contains("[REDACTED]"));
    assert_eq!(record.message, "Authorization Bearer [REDACTED]");
    assert_eq!(record.id, 1);
    assert_eq!(record.timestamp, 100);
}

#[test]
fn redacts_short_api_key_shapes_and_query_parameters() {
    let mut store = DiagnosticsStore::new();
    let record = store.record(
        DiagnosticSeverity::Error,
        "upstream",
        "request failed sk-1234567890 https://example.test?api_key=visible",
        "route",
        &Vec::new(),
        5,
    );
    assert!(!record.message.contains("sk-1234567890"));
    assert!(!record.message.contains("api_key=visible"));
    assert_eq!(record.message, "request failed [REDACTED] https://example.test?api_key=[REDACTED]");
}

#[test]
fn redaction_keeps_short_keys_and_joins_words_with_single_spaces() {
    let none: Vec<String> = Vec::new();
    assert_eq!(redact("  a\t b  ", &none), "a b");
    assert_eq!(redact("sk-short", &none), "sk-short");
    assert_eq!(redact("\"rk-abcdefghij\",", &none), "[REDACTED]");
    assert_eq!(redact("(rk-abcdefghij)", &none), "(rk-abcdefghij)");
    assert_eq!(redact("bearer", &none), "Bearer [REDACTED]");
    assert_eq!(redact("x?token=abc&y=1#frag", &none), "x?token=[REDACTED]&y=1#frag");
    assert_eq!(redact("aXbXc", &vec!["X".to_string(), String::new()]), "a[REDACTED]b[REDACTED]c");
}

#[test]
fn keeps_only_the_newest_two_hundred_records() {
    let mut store = DiagnosticsStore::new();
    for index in 0..205 {
        store.record(DiagnosticSeverity::Info, "test", &index.to_string(), "test", &Vec::new(), 1);
    }
    let records = store.recent(500);
    assert_eq!(records.len(), MAX_RECORDS);
    assert_eq!(records.first().map(|record| record.message.as_str()), Some("204"));
    assert_eq!(store.recent(3).len(), 3);
}

#[test]
fn recent_orders_by_time_then_id_and_clear_empties() {
    let mut store = DiagnosticsStore::new();
    store.record(DiagnosticSeverity::Info, "a", "late", "s", &Vec::new(), 20);
    store.record(DiagnosticSeverity::Info, "b", "early", "s", &Vec::new(), 10);
    store.record(DiagnosticSeverity::Warning, "c", "late again", "s", &Vec::new(), 20);
    let messages: Vec<String> = store.recent(10).into_iter().map(|r| r.message).collect();
    assert_eq!(messages, vec!["late again".to_string(), "late".to_string(), "early".to_string()]);
    store.clear();
    assert!(store.recent(10).is_empty());
    let next = store.record(DiagnosticSeverity::Info, "d", "after", "s", &Vec::new(), 30);
    assert_eq!(next.id, 4);
}

#[test]
fn reads_and_normalizes_saved_project_roots() {
    let facts = WorkspaceFacts { facts: Vec::new() };
    let rows = vec![
        "/tmp/home/workspace/nested/..".to_string(),
        "relative/path".to_string(),
        "/tmp/home/other".to_string(),
        "/tmp/home/workspace".to_string(),
    ];
    assert_eq!(
        project_roots(&rows, &facts),
        vec!["/tmp/home/other".to_string(), "/tmp/home/workspace".to_string()]
    );
}

#[test]
fn unavailable_or_invalid_databases_are_safe_to_ignore() {
    let facts = WorkspaceFacts {
        facts: vec![WorkspaceFact { path: "/tmp/link".to_string(), canonical: Some("/tmp/real".to_string()), exists: true }],
    };
    let failed = Err(ProjectRootsError::Open { path: "/tmp/state_5.sqlite".to_string(), message: "not a database".to_string() });
    assert!(load_saved_project_roots(failed, &facts).is_empty());
    let query_failed = Err(ProjectRootsError::Query { message: "no such table".to_string() });
    assert!(load_saved_project_roots(query_failed, &facts).is_empty());
    assert_eq!(load_saved_project_roots(Ok(vec!["/tmp/link".to_string()]), &facts), vec!["/tmp/real".to_string()]);
}

#[test]
fn context_keys_stay_in_increasing_order() {
    let mut store = DiagnosticsStore::new();
    let context = vec![("a".to_string(), "one".to_string()), ("b".to_string(), "sk-secret".to_string())];
    store.record_with_secrets(DiagnosticSeverity::Info, "c", "m", "s", &context, &vec!["sk-secret".to_string()], 1);
    let recent = store.recent(10);
    let keys: Vec<&str> = recent[0].context.iter().map(|(k, _)| k.as_str()).collect();
    assert_eq!(keys, vec!["a", "b"]);
    assert_eq!(recent[0].context[1].1, "[REDACTED]");
}
