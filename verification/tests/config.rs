use codex_route::config::{ConfigError, HomeEnvironment, ScanConfig, DEFAULT_MAX_ROLLOUT_BYTES, MAX_ALLOWED_ROLLOUT_BYTES};
use codex_route::workspace_rule::{lexical_normalize, normalize_workspace_path, WorkspacePathError};

fn env(home: &str, codex_home: Option<&str>) -> HomeEnvironment {
    HomeEnvironment { codex_home: codex_home.map(String::from), home: Some(home.to_string()), user_profile: None }
}

#[test]
fn explicit_home_wins_over_environment() {
    let config = ScanConfig::from_sources(
        Some("/explicit/.codex".to_string()),
        None,
        &env("/environment", Some("/environment/.codex")),
    )
    .expect("configuration should be valid");

    assert_eq!(
        config,
        ScanConfig { codex_home: "/explicit/.codex".to_string(), max_rollout_bytes: DEFAULT_MAX_ROLLOUT_BYTES }
    );
}

#[test]
fn environment_home_precedes_default_home() {
    let config = ScanConfig::from_sources(None, None, &env("/default", Some("/environment/.codex")))
        .expect("configuration should be valid");
    assert_eq!(config.codex_home, "/environment/.codex");
}

#[test]
fn default_home_is_used_when_environment_override_is_absent() {
    let config = ScanConfig::from_sources(None, None, &env("/default", None)).expect("configuration should be valid");
    assert_eq!(config.codex_home, "/default/.codex");
}

#[test]
fn relative_and_invalid_limits_are_rejected() {
    assert!(matches!(
        ScanConfig::from_sources(Some(".codex".to_string()), None, &env("/home/user", None)),
        Err(ConfigError::RelativeCodexHome(_))
    ));
    assert!(matches!(
        ScanConfig::from_sources(None, Some(0), &env("/home/user", None)),
        Err(ConfigError::InvalidMaxRolloutBytes(0))
    ));
    assert!(matches!(
        ScanConfig::from_sources(None, Some(MAX_ALLOWED_ROLLOUT_BYTES + 1), &env("/home/user", None)),
        Err(ConfigError::InvalidMaxRolloutBytes(_))
    ));
}

#[test]
fn missing_home_and_relative_environment_are_reported() {
    let nothing = HomeEnvironment { codex_home: None, home: None, user_profile: None };
    assert_eq!(ScanConfig::from_sources(None, None, &nothing), Err(ConfigError::HomeDirectoryUnavailable));
    let relative = HomeEnvironment { codex_home: Some("rel".to_string()), home: None, user_profile: None };
    assert_eq!(
        ScanConfig::from_sources(None, None, &relative),
        Err(ConfigError::RelativeEnvironmentHome("rel".to_string()))
    );
    let profile = HomeEnvironment { codex_home: None, home: None, user_profile: Some("/users/me".to_string()) };
    assert_eq!(ScanConfig::from_sources(None, Some(MAX_ALLOWED_ROLLOUT_BYTES), &profile).unwrap().codex_home, "/users/me/.codex");
}

#[test]
fn normalizes_existing_workspace_to_canonical_path() {
    assert_eq!(
        normalize_workspace_path("/tmp/dir/nested/../nested", Some("/tmp/dir/nested")).unwrap(),
        "/tmp/dir/nested"
    );
}

#[test]
fn normalizes_missing_absolute_workspace_lexically() {
    assert_eq!(
        normalize_workspace_path("/tmp/codex-route-missing/child/../project", None).unwrap(),
        "/tmp/codex-route-missing/project"
    );
    assert_eq!(lexical_normalize("/a/./b//c/"), "/a/b/c");
}

#[test]
fn rejects_empty_and_relative_workspaces() {
    assert_eq!(normalize_workspace_path("", None), Err(WorkspacePathError::Empty));
    assert!(matches!(normalize_workspace_path("project", None), Err(WorkspacePathError::Relative(_))));
}
