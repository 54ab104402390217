use codex_route::cc_switch_import::{ConflictPolicy, ImportCandidate};
use codex_route::json::{parse_json, JsonValue};
use codex_route::provider::{Provider, ProviderSource};
use codex_route::provider_store::{ProviderStore, ProviderStoreError, UpsertOutcome, UpsertRouteRuleOutcome};
use codex_route::workspace_rule::{normalize_workspace_path, WorkspacePathError};

const NOW: i64 = 1_700_000_000;

fn provider(id: &str, source: ProviderSource) -> Provider {
    Provider {
        id: id.to_string(),
        name: format!("Provider {id}"),
        settings_config: r#"{"auth":{"OPENAI_API_KEY":"sk-test-secret"},"config":"model_provider = \"custom\"\n[model_providers.custom]\nbase_url = \"https://example.test/v1\""}"#.to_string(),
        website_url: None,
        category: Some("custom".to_string()),
        created_at: Some(1),
        sort_index: Some(0),
        notes: None,
        icon: None,
        icon_color: None,
        meta: r#"{"unknown":{"kept":true}}"#.to_string(),
        in_failover_queue: false,
        is_current: false,
        source,
    }
}

fn empty_store() -> ProviderStore {
    ProviderStore::from_rows("/tmp/codex-route.db".to_string(), Vec::new(), Vec::new()).expect("empty store")
}

fn kept_flag(meta: &str) -> Option<bool> {
    let value = parse_json(meta.as_bytes())?;
    match value.get("unknown")?.get("kept")? {
        JsonValue::Bool(b) => Some(*b),
        _ => None,
    }
}

#[test]
fn store_round_trips_json_and_source_identity() {
    let mut store = empty_store();
    store
        .insert(&provider("p1", ProviderSource::CcSwitch { source_id: "p1".to_string(), source_updated_at: None }), NOW)
        .unwrap();

    let loaded = store.get("p1").unwrap();
    assert_eq!(kept_flag(&loaded.meta), Some(true));
    assert!(matches!(loaded.source, ProviderSource::CcSwitch { ref source_id, .. } if source_id == "p1"));
}

#[test]
fn source_index_finds_imported_provider() {
    let mut store = empty_store();
    store
        .insert(
            &provider("p1", ProviderSource::CcSwitch { source_id: "source-p1".to_string(), source_updated_at: None }),
            NOW,
        )
        .unwrap();
    assert_eq!(store.find_imported("source-p1").unwrap().id, "p1");
    assert!(store.find_imported("p1").is_none());
}

#[test]
fn store_round_trips_unknown_json_and_source_identity() {
    let mut store = empty_store();
    let source = ProviderSource::CcSwitch { source_id: "source-p1".to_string(), source_updated_at: Some(42) };
    store.insert(&provider("p1", source), NOW).unwrap();

    let loaded = store.get("p1").unwrap();
    assert_eq!(kept_flag(&loaded.meta), Some(true));
    assert_eq!(store.find_imported("source-p1").unwrap().id, "p1");
}

#[test]
fn inserting_an_existing_id_is_refused() {
    let mut store = empty_store();
    store.insert(&provider("p1", ProviderSource::Local), NOW).unwrap();
    assert!(matches!(
        store.insert(&provider("p1", ProviderSource::Local), NOW),
        Err(ProviderStoreError::AlreadyExists(id)) if id == "p1"
    ));
}

#[test]
fn import_preserves_existing_current_state_and_is_idempotent() {
    let mut store = empty_store();
    let mut current = provider("local", ProviderSource::Local);
    current.is_current = true;
    current.in_failover_queue = true;
    store.insert(&current, NOW).unwrap();

    let candidate = ImportCandidate {
        provider: provider(
            "imported",
            ProviderSource::CcSwitch { source_id: "source-imported".to_string(), source_updated_at: None },
        ),
        source_is_current: true,
    };
    let first = store.import_transaction(&vec![candidate.clone()], ConflictPolicy::Skip, NOW).unwrap();
    assert_eq!(first.imported, 1);
    assert!(!store.get("imported").unwrap().is_current);

    let second = store.import_transaction(&vec![candidate.clone()], ConflictPolicy::Skip, NOW).unwrap();
    assert_eq!(second.skipped, 1);

    let replacement = store.upsert_imported(&candidate.provider, true, NOW).unwrap();
    assert_eq!(replacement, UpsertOutcome::Replaced);
    let local = store.get("local").unwrap();
    assert!(local.is_current);
    assert!(local.in_failover_queue);
}

#[test]
fn local_id_collision_uses_stable_ccswitch_namespace() {
    let mut store = empty_store();
    store.insert(&provider("same-id", ProviderSource::Local), NOW).unwrap();
    let candidate = ImportCandidate {
        provider: provider("same-id", ProviderSource::CcSwitch { source_id: "same-id".to_string(), source_updated_at: None }),
        source_is_current: false,
    };
    let report = store.import_transaction(&vec![candidate.clone()], ConflictPolicy::Rename, NOW).unwrap();
    assert_eq!(report.renamed, 1);
    assert!(matches!(store.get("same-id").unwrap().source, ProviderSource::Local));
    assert!(store.get("ccswitch-same-id").is_some());

    let repeat = store.import_transaction(&vec![candidate], ConflictPolicy::Rename, NOW).unwrap();
    assert_eq!(repeat.replaced, 1);
    assert!(store.get("ccswitch-same-id-2").is_none());
}

#[test]
fn set_current_leaves_exactly_one_current_provider() {
    let mut store = empty_store();
    let mut a = provider("a", ProviderSource::Local);
    a.is_current = true;
    store.insert(&a, NOW).unwrap();
    store.insert(&provider("b", ProviderSource::Local), NOW).unwrap();
    let chosen = store.set_current("b").unwrap();
    assert_eq!(chosen.id, "b");
    assert!(!store.get("a").unwrap().is_current);
    assert!(store.get("b").unwrap().is_current);
    assert!(matches!(store.set_current("missing"), Err(ProviderStoreError::ProviderNotFound(id)) if id == "missing"));
}

#[test]
fn providers_are_listed_by_sort_index_then_creation_then_id() {
    let mut store = empty_store();
    let mut late = provider("b", ProviderSource::Local);
    late.sort_index = Some(2);
    let mut early = provider("c", ProviderSource::Local);
    early.sort_index = Some(1);
    let mut tie = provider("a", ProviderSource::Local);
    tie.sort_index = Some(1);
    store.insert(&late, NOW).unwrap();
    store.insert(&early, NOW).unwrap();
    store.insert(&tie, NOW).unwrap();
    let ids: Vec<String> = store.list().into_iter().map(|p| p.id).collect();
    assert_eq!(ids, vec!["a".to_string(), "c".to_string(), "b".to_string()]);
}

#[test]
fn route_rules_round_trip_and_enforce_provider_and_duplicate_checks() {
    let mut store = empty_store();
    store.insert(&provider("provider-a", ProviderSource::Local), NOW).unwrap();
    store.insert(&provider("provider-b", ProviderSource::Local), NOW).unwrap();

    let workspace = "/tmp/route-rules/projects/app";
    let inserted = store.upsert_route_rule(workspace, None, "provider-a", false, NOW).unwrap();
    assert_eq!(inserted, UpsertRouteRuleOutcome::Inserted);

    let rules = store.list_route_rules();
    assert_eq!(rules.len(), 1);
    assert_eq!(rules[0].workspace, normalize_workspace_path(workspace, None).unwrap());
    assert_eq!(rules[0].provider_id, "provider-a");

    assert!(matches!(
        store.upsert_route_rule(workspace, None, "provider-b", false, NOW),
        Err(ProviderStoreError::RouteRuleAlreadyExists(_))
    ));
    assert_eq!(
        store.upsert_route_rule(workspace, None, "provider-b", true, NOW).unwrap(),
        UpsertRouteRuleOutcome::Replaced
    );
    assert_eq!(store.get_route_rule(workspace, None).unwrap().unwrap().provider_id, "provider-b");

    assert!(matches!(
        store.upsert_route_rule(workspace, None, "missing", false, NOW),
        Err(ProviderStoreError::ProviderNotFound(id)) if id == "missing"
    ));
}

#[test]
fn route_rules_remove_returns_rule_and_rejects_missing_workspace() {
    let mut store = empty_store();
    store.insert(&provider("provider-a", ProviderSource::Local), NOW).unwrap();
    let workspace = "/tmp/route-rules/project";
    store.upsert_route_rule(workspace, None, "provider-a", false, NOW).unwrap();

    let removed = store.remove_route_rule(workspace, None).unwrap();
    assert_eq!(removed.provider_id, "provider-a");
    assert!(store.list_route_rules().is_empty());
    assert!(store.get_route_rule(workspace, None).unwrap().is_none());
    assert!(matches!(store.remove_route_rule(workspace, None), Err(ProviderStoreError::RouteRuleNotFound(_))));
}

#[test]
fn route_rules_match_workspaces_through_their_canonical_path() {
    let mut store = empty_store();
    store.insert(&provider("provider-a", ProviderSource::Local), NOW).unwrap();
    store.upsert_route_rule("/tmp/link", Some("/tmp/real"), "provider-a", false, NOW).unwrap();
    assert_eq!(store.get_route_rule("/tmp/real/./", None).unwrap().unwrap().workspace, "/tmp/real");
    assert!(store.get_route_rule("/tmp/link", None).unwrap().is_none());
}

#[test]
fn route_rules_reject_relative_paths() {
    let mut store = empty_store();
    store.insert(&provider("provider-a", ProviderSource::Local), NOW).unwrap();

    assert!(matches!(
        store.upsert_route_rule("relative", None, "provider-a", false, NOW),
        Err(ProviderStoreError::InvalidWorkspace(WorkspacePathError::Relative(_)))
    ));
    assert!(matches!(
        store.upsert_route_rule("", None, "provider-a", false, NOW),
        Err(ProviderStoreError::InvalidWorkspace(WorkspacePathError::Empty))
    ));
}

#[test]
fn upsert_renames_on_a_local_id_collision_even_without_replace() {
    let mut store = empty_store();
    store.insert(&provider("same-id", ProviderSource::Local), NOW).unwrap();
    store.insert(&provider("ccswitch-src", ProviderSource::Local), NOW).unwrap();
    let imported = provider("same-id", ProviderSource::CcSwitch { source_id: "src".to_string(), source_updated_at: None });

    assert_eq!(store.upsert_imported(&imported, false, NOW).unwrap(), UpsertOutcome::Renamed);
    assert!(matches!(store.get("same-id").unwrap().source, ProviderSource::Local));
    assert!(matches!(store.get("ccswitch-src").unwrap().source, ProviderSource::Local));
    assert_eq!(store.get("ccswitch-src-2").unwrap().source.source_id(), Some("src"));

    assert_eq!(store.upsert_imported(&imported, false, NOW).unwrap(), UpsertOutcome::Skipped);
    assert_eq!(store.list().len(), 3);
    assert_eq!(store.upsert_imported(&imported, true, NOW).unwrap(), UpsertOutcome::Replaced);
    assert_eq!(store.list().len(), 3);
}

#[test]
fn upsert_inserts_a_new_provider_with_its_own_current_flag() {
    let mut store = empty_store();
    let mut imported = provider("fresh", ProviderSource::CcSwitch { source_id: "fresh".to_string(), source_updated_at: None });
    imported.is_current = true;
    assert_eq!(store.upsert_imported(&imported, false, NOW).unwrap(), UpsertOutcome::Inserted);
    assert!(store.get("fresh").unwrap().is_current);
    let local = provider("local", ProviderSource::Local);
    assert!(matches!(store.upsert_imported(&local, true, NOW), Err(ProviderStoreError::NotImported(id)) if id == "local"));
}
