use std::cell::RefCell;

use codex_route::client::{
    resolve_language, restart_delay, same_snapshot, should_auto_start, sync_launch_at_login, AutostartBackend,
    ClientSettings, ClientSnapshot, CodexStatus, DiagnosticsSummary, LanguagePreference, ResolvedLocale, RuntimePhase,
    RuntimeSnapshot, TrayMenuModel,
};
use codex_route::provider::ProviderSummary;

struct FakeBackend {
    calls: RefCell<Vec<bool>>,
    error: Option<String>,
}

impl AutostartBackend for FakeBackend {
    fn set_enabled(&self, enabled: bool) -> Result<(), String> {
        self.calls.borrow_mut().push(enabled);
        self.error.clone().map_or(Ok(()), Err)
    }
}

#[test]
fn forwards_enable_and_disable_once() {
    let backend = FakeBackend { calls: RefCell::new(Vec::new()), error: None };
    sync_launch_at_login(&backend, true).unwrap();
    sync_launch_at_login(&backend, false).unwrap();
    assert_eq!(*backend.calls.borrow(), vec![true, false]);
}

#[test]
fn returns_registration_error() {
    let backend = FakeBackend { calls: RefCell::new(Vec::new()), error: Some("login item denied".to_string()) };
    assert_eq!(sync_launch_at_login(&backend, true), Err("login item denied".to_string()));
    assert_eq!(*backend.calls.borrow(), vec![true]);
}

#[test]
fn explicit_preferences_win_over_system_locale() {
    assert_eq!(resolve_language(LanguagePreference::ZhCn, Some("zh-TW")), ResolvedLocale::ZhCn);
    assert_eq!(resolve_language(LanguagePreference::ZhTw, Some("en-US")), ResolvedLocale::ZhTw);
    assert_eq!(resolve_language(LanguagePreference::En, Some("zh-CN")), ResolvedLocale::En);
}

#[test]
fn system_locale_families_and_fallback_are_supported() {
    assert_eq!(resolve_language(LanguagePreference::System, Some("zh-CN")), ResolvedLocale::ZhCn);
    assert_eq!(resolve_language(LanguagePreference::System, Some("zh_SG")), ResolvedLocale::ZhCn);
    assert_eq!(resolve_language(LanguagePreference::System, Some("zh-HK")), ResolvedLocale::ZhTw);
    assert_eq!(resolve_language(LanguagePreference::System, Some("zh-MO")), ResolvedLocale::ZhTw);
    assert_eq!(resolve_language(LanguagePreference::System, Some("fr-FR")), ResolvedLocale::En);
    assert_eq!(resolve_language(LanguagePreference::System, None), ResolvedLocale::En);
}

#[test]
fn locale_tags_are_trimmed_and_case_folded() {
    assert_eq!(resolve_language(LanguagePreference::System, Some("  ZH_tw ")), ResolvedLocale::ZhTw);
    assert_eq!(resolve_language(LanguagePreference::System, Some("zh")), ResolvedLocale::En);
    assert_eq!(resolve_language(LanguagePreference::System, Some("zh-my")), ResolvedLocale::ZhCn);
}

#[test]
fn runtime_snapshot_starts_stopped_and_tracks_restart_count() {
    let snapshot = RuntimeSnapshot::default();
    assert_eq!(snapshot.phase, RuntimePhase::Stopped);
    assert!(!snapshot.active);
    assert_eq!(snapshot.restart_count, 0);
}

#[test]
fn health_poll_does_not_publish_when_only_time_and_sequence_changed() {
    let first = RuntimeSnapshot { updated_at: 10, sequence: 1, ..RuntimeSnapshot::default() };
    let second = RuntimeSnapshot { updated_at: 20, sequence: 99, ..RuntimeSnapshot::default() };
    assert!(same_snapshot(&first, &second));
}

#[test]
fn snapshots_differ_when_the_phase_changes() {
    let first = RuntimeSnapshot::stopped(5);
    let second = RuntimeSnapshot { phase: RuntimePhase::Running, active: true, ..RuntimeSnapshot::stopped(5) };
    assert!(!same_snapshot(&first, &second));
}

#[test]
fn restart_backoff_caps_at_eight_seconds() {
    assert_eq!(restart_delay(1), 1);
    assert_eq!(restart_delay(2), 2);
    assert_eq!(restart_delay(3), 4);
    assert_eq!(restart_delay(4), 8);
    assert_eq!(restart_delay(9), 8);
}

#[test]
fn auto_start_requires_explicit_consent_and_setting() {
    assert!(!should_auto_start(&ClientSettings::default()));
    assert!(should_auto_start(&ClientSettings {
        auto_start: true,
        startup_consent_granted: true,
        port: codex_route::route::DEFAULT_ROUTE_PORT,
        ..ClientSettings::default()
    }));
    assert!(!should_auto_start(&ClientSettings {
        auto_start: false,
        startup_consent_granted: true,
        port: codex_route::route::DEFAULT_ROUTE_PORT,
        ..ClientSettings::default()
    }));
}

fn snapshot(phase: RuntimePhase, active: bool, providers: Vec<ProviderSummary>) -> ClientSnapshot {
    ClientSnapshot {
        schema_version: 1,
        sequence: 0,
        generated_at: 1,
        codex: CodexStatus {
            home: "/tmp/.codex".to_string(),
            config_path: "/tmp/.codex/config.toml".to_string(),
            installed: true,
            version: None,
            config_exists: true,
            config_managed: false,
            external_modification: false,
        },
        workspaces: Vec::new(),
        workspace: None,
        provider: providers.first().cloned(),
        providers,
        rules: Vec::new(),
        runtime: RuntimeSnapshot { phase, active, ..RuntimeSnapshot::default() },
        diagnostics: DiagnosticsSummary::default(),
    }
}

#[test]
fn running_menu_exposes_stop_and_current_provider() {
    let provider = ProviderSummary {
        id: "a".into(),
        name: "Provider A".into(),
        category: None,
        source: "local".into(),
        is_current: true,
    };
    let model = TrayMenuModel::from_snapshot(&snapshot(RuntimePhase::Running, true, vec![provider]));
    assert_eq!(model.route_status, "Stop Route");
    assert_eq!(model.provider_status, "Provider: Provider A");
    assert!(model.route_enabled);
}

#[test]
fn empty_menu_has_safe_disabled_actions() {
    let model = TrayMenuModel::empty();
    assert_eq!(model.route_status, "Route unavailable");
    assert_eq!(model.provider_status, "Provider: none");
    assert!(!model.route_enabled);
    assert!(!model.provider_enabled);
}

#[test]
fn degraded_without_provider_disables_route_action() {
    let model = TrayMenuModel::from_snapshot(&snapshot(RuntimePhase::Degraded, false, vec![]));
    assert_eq!(model.route_status, "Route unavailable");
    assert!(!model.route_enabled);
    assert!(!model.provider_enabled);
}
