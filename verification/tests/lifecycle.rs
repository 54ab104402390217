use codex_route::cli::{exit_code, Failure};
use codex_route::lifecycle::{
    check_port, rollback_plan, Rollback,
    check_still_managed, plan_fresh_activation, verify_backup, BackupRead, LifecycleError,
    contains_unowned_route_provider, content_hash, has_marker_line, lock_decision, project_config, restore_action,
    text_hash, LifecyclePaths, LockDecision, RestoreAction, CONFIG_MARKER, ROUTE_PROVIDER_ID,
};
use codex_route::toml_doc::parse_toml;

#[test]
fn projects_route_provider_and_preserves_existing_config_values() {
    let config = "model = \"gpt-5-codex\"\n[model_providers.other]\nbase_url = \"https://example.test/v1\"\n";
    let projected = project_config(Some(config), 16729).unwrap();
    assert!(projected.starts_with(CONFIG_MARKER));
    let document = parse_toml(&projected).unwrap();
    assert_eq!(document.get("model").and_then(|v| v.as_str()).map(|s| s.as_str()), Some("gpt-5-codex"));
    assert_eq!(document.get("model_provider").and_then(|v| v.as_str()).map(|s| s.as_str()), Some(ROUTE_PROVIDER_ID));
    assert_eq!(
        document
            .get("model_providers")
            .and_then(|p| p.get(ROUTE_PROVIDER_ID))
            .and_then(|p| p.get("base_url"))
            .and_then(|v| v.as_str())
            .map(|s| s.as_str()),
        Some("http://127.0.0.1:16729/v1")
    );
    assert!(document.get("model_providers").and_then(|p| p.get("other")).is_some());
    assert!(has_marker_line(&projected));
    assert!(!contains_unowned_route_provider(&projected));
}

#[test]
fn projecting_nothing_gives_a_managed_config() {
    let projected = project_config(None, 9000).unwrap();
    assert!(projected.starts_with(CONFIG_MARKER));
    assert!(project_config(Some("not = [valid"), 9000).is_err());
}

#[test]
fn unowned_route_providers_are_detected() {
    let config = "[model_providers.codex-route]\nbase_url = \"http://127.0.0.1:1/v1\"\n";
    assert!(contains_unowned_route_provider(config));
    assert!(!contains_unowned_route_provider("model = \"x\"\n"));
}

#[test]
fn content_hash_is_sixteen_hex_digits_of_fnv1a() {
    assert_eq!(content_hash(b""), "cbf29ce484222325");
    assert_eq!(content_hash(b"a"), "af63dc4c8601ec8c");
    assert_eq!(text_hash("a"), content_hash(b"a"));
}

#[test]
fn lifecycle_paths_live_under_the_data_directory_and_codex_home() {
    let paths = LifecyclePaths::new("/data".to_string(), "/home/me/.codex".to_string());
    assert_eq!(paths.config_path(), "/home/me/.codex/config.toml");
    assert_eq!(paths.lock_path(), "/data/route.lock");
    assert_eq!(paths.backup_path(), "/data/codex-config.toml.bak");
}

#[test]
fn stale_locks_are_removed_and_live_ones_refuse() {
    assert!(matches!(lock_decision(false, None, false), LockDecision::Free));
    assert!(matches!(lock_decision(true, Some(7), true), LockDecision::AlreadyActive(7)));
    assert!(matches!(lock_decision(true, Some(7), false), LockDecision::RemoveStale));
    assert!(matches!(lock_decision(true, None, true), LockDecision::RemoveStale));
}

#[test]
fn restore_writes_back_only_a_still_managed_config() {
    assert!(matches!(restore_action(true, true, true), RestoreAction::WriteBackup));
    assert!(matches!(restore_action(true, false, true), RestoreAction::RemoveConfig));
    assert!(matches!(restore_action(false, true, true), RestoreAction::Keep));
}

#[test]
fn activate_then_deactivate_restores_the_original_config() {
    let paths = LifecyclePaths::new("/data".to_string(), "/home/me/.codex".to_string());
    let original = "model_provider = \"custom\"\n";
    let (managed, state) = plan_fresh_activation(&paths, Some(original), 16729, None).unwrap();
    assert!(managed.starts_with(CONFIG_MARKER));
    assert!(check_still_managed(&state, Some(&managed)).is_ok());
    assert!(matches!(check_still_managed(&state, Some(original)), Err(LifecycleError::ExternalModification)));
    let restored = verify_backup(&state, BackupRead::Read(original.as_bytes().to_vec())).unwrap();
    assert_eq!(restored, original.as_bytes());
    assert!(matches!(
        verify_backup(&state, BackupRead::Read(b"tampered".to_vec())),
        Err(LifecycleError::ExternalModification)
    ));
    assert!(matches!(restore_action(true, state.original_exists, true), RestoreAction::WriteBackup));
    let (_, fresh) = plan_fresh_activation(&paths, None, 16729, None).unwrap();
    assert!(matches!(restore_action(true, fresh.original_exists, true), RestoreAction::RemoveConfig));
}

#[test]
fn a_marked_config_without_state_is_refused() {
    let paths = LifecyclePaths::new("/data".to_string(), "/home/me/.codex".to_string());
    let marked = format!("{CONFIG_MARKER}\nmodel = \"x\"\n");
    assert!(matches!(plan_fresh_activation(&paths, Some(&marked), 16729, None), Err(LifecycleError::InvalidState(_))));
}

#[test]
fn port_zero_is_refused_and_rollback_follows_what_was_changed() {
    assert!(matches!(check_port(0), Err(LifecycleError::InvalidPort)));
    assert!(check_port(16729).is_ok());
    let paths = LifecyclePaths::new("/tmp/cr-data".to_string(), "/tmp/cr-home".to_string());
    let (_, found) = plan_fresh_activation(&paths, Some("model = \"gpt-5\"\n"), 16729, None).unwrap();
    let (_, absent) = plan_fresh_activation(&paths, None, 16729, None).unwrap();
    assert_eq!(rollback_plan(&found, true), Rollback::RestoreOriginal);
    assert_eq!(rollback_plan(&absent, true), Rollback::RemoveConfig);
    assert_eq!(rollback_plan(&found, false), Rollback::KeepState);
}

#[test]
fn exit_codes_are_stable() {
    assert_eq!(exit_code(Failure::InvalidArguments), 2);
    assert_eq!(exit_code(Failure::NotFound), 3);
    assert_eq!(exit_code(Failure::Other), 4);
}
