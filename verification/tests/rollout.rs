use codex_route::rollout::{
    discover_active_rollouts, discover_rollouts, is_rollout_name, read_session_meta, scan_session_meta, RolloutError,
    RolloutFile, RolloutSource, WalkEntry, WalkListing,
};

fn fixture_path(name: &str) -> String {
    format!("/tmp/codex-route-rollout-tests/{name}")
}

fn metadata_with(session_id: &str, thread_id: &str, cwd: &str, extra: &str) -> Vec<u8> {
    format!(
        "{{\"timestamp\":\"2026-09-02T12:00:00.000Z\",\"type\":\"session_meta\",\"payload\":{{\"session_id\":\"{session_id}\",\"id\":\"{thread_id}\",\"timestamp\":\"2026-09-02T12:00:00Z\",\"cwd\":\"{cwd}\",\"cli_version\":\"test\"{extra}}}}}"
    )
    .into_bytes()
}

fn metadata_line(session_id: &str, thread_id: &str, cwd: &str) -> Vec<u8> {
    metadata_with(session_id, thread_id, cwd, ",\"originator\":\"codex\"")
}

fn scan(bytes: &[u8], archived: bool, limit: u64) -> Result<Option<codex_route::rollout::RolloutSessionMeta>, RolloutError> {
    scan_session_meta(bytes, &fixture_path("rollout.jsonl"), archived, limit, None, None)
}

#[test]
fn parses_enveloped_session_metadata() {
    let workspace = fixture_path("project");
    let line = metadata_line("session-1", "thread-1", &workspace);
    let result = scan(&line, false, 64 * 1024).expect("fixture should parse").expect("metadata should be present");

    assert_eq!(result.session_id, "session-1");
    assert_eq!(result.thread_id, "thread-1");
    assert_eq!(result.workspace, workspace);
    assert_eq!(result.source, RolloutSource::Legacy);
    assert!(!result.archived);
}

#[test]
fn recognizes_legacy_desktop_metadata_without_source() {
    let workspace = fixture_path("legacy-desktop");
    let line = metadata_with("session-1", "thread-1", &workspace, ",\"originator\":\"Codex Desktop\"");
    let result = scan(&line, false, 64 * 1024).expect("fixture should parse").expect("metadata should be present");
    assert_eq!(result.source, RolloutSource::Vscode);
}

#[test]
fn rejects_known_background_originators_without_source() {
    let workspace = fixture_path("legacy-background");
    for (originator, expected) in [
        ("codex_exec", RolloutSource::Exec),
        ("mcp", RolloutSource::Other("mcp".to_string())),
        ("subagent:thread_spawn", RolloutSource::Other("subagent:thread_spawn".to_string())),
    ] {
        let line = metadata_with("session-1", "thread-1", &workspace, &format!(",\"originator\":\"{originator}\""));
        let result = scan(&line, false, 64 * 1024).expect("fixture should parse").expect("metadata should be present");
        assert_eq!(result.source, expected);
    }
}

#[test]
fn parses_known_sources_and_structured_subagents() {
    let workspace = fixture_path("project");
    for (source, expected) in [
        ("\"cli\"", RolloutSource::Cli),
        ("\"vscode\"", RolloutSource::Vscode),
        ("\"exec\"", RolloutSource::Exec),
        ("{\"subagent\":{\"thread_spawn\":{}}}", RolloutSource::Other("subagent".to_string())),
    ] {
        let line = metadata_with(
            "session-1",
            "thread-1",
            &workspace,
            &format!(",\"originator\":\"codex\",\"source\":{source}"),
        );
        let result = scan(&line, false, 64 * 1024).expect("fixture should parse").expect("metadata should be present");
        assert_eq!(result.source, expected);
    }
}

#[test]
fn skips_invalid_lines_until_metadata() {
    let mut contents = b"not json\n".to_vec();
    contents.extend(metadata_line("session-1", "thread-1", &fixture_path("project")));
    let result = scan(&contents, true, 64 * 1024).expect("fixture should parse").expect("metadata should be present");
    assert!(result.archived);
}

#[test]
fn rejects_relative_workspace_and_oversized_prefix() {
    let relative = metadata_line("session-1", "thread-1", ".");
    assert!(scan(&relative, false, 64 * 1024).expect("relative paths should be ignored").is_none());

    let oversized = vec![b'x'; 65];
    assert!(matches!(scan(&oversized, false, 64), Err(RolloutError::ScanLimitExceeded { limit: 64, .. })));
}

#[test]
fn read_errors_and_open_errors_surface_as_read_errors() {
    let file = RolloutFile {
        path: fixture_path("gone.jsonl"),
        prefix: Vec::new(),
        modified_at: None,
        open_error: Some("not found".to_string()),
        read_error: None,
    };
    assert!(matches!(read_session_meta(&file, false, 64), Err(RolloutError::Read { .. })));
}

#[test]
fn scan_limit_is_applied_to_logical_rollout_bytes() {
    let file = RolloutFile {
        path: fixture_path("rollout-large.jsonl"),
        prefix: vec![b'x'; 65],
        modified_at: None,
        open_error: None,
        read_error: None,
    };
    assert!(matches!(read_session_meta(&file, false, 64), Err(RolloutError::ScanLimitExceeded { limit: 64, .. })));
}

#[test]
fn reads_plain_metadata_followed_by_content() {
    let repo = fixture_path("repo");
    let mut prefix = metadata_line("S", "T1", &repo);
    prefix.extend_from_slice(b"\nuser content after metadata\n");
    let file = RolloutFile {
        path: fixture_path("rollout-plain.jsonl"),
        prefix,
        modified_at: Some(7),
        open_error: None,
        read_error: None,
    };
    let meta = read_session_meta(&file, false, 64 * 1024).expect("read").expect("metadata");
    assert_eq!(meta.session_id, "S");
    assert_eq!(meta.thread_id, "T1");
    assert_eq!(meta.workspace, repo);
    assert_eq!(meta.modified_at, Some(7));
}

fn entry(path: &str, is_file: bool) -> Result<WalkEntry, String> {
    let file_name = path.rsplit('/').next().unwrap_or("").to_string();
    Ok(WalkEntry { path: path.to_string(), file_name, is_file })
}

#[test]
fn discovers_active_archived_and_ignores_unrelated_files() {
    let home = "/tmp/codex-route-discover";
    let sessions = WalkListing {
        exists: true,
        entries: vec![
            entry(&format!("{home}/sessions"), false),
            entry(&format!("{home}/sessions/2026/09/02/rollout-active.jsonl"), true),
            entry(&format!("{home}/sessions/2026/09/02/notes.jsonl"), true),
            entry(&format!("{home}/sessions/2026/09/02/rollout-dir.jsonl"), false),
        ],
    };
    let archived = WalkListing {
        exists: true,
        entries: vec![entry(&format!("{home}/archived_sessions/2026/09/02/rollout-archived.jsonl.zst"), true)],
    };
    let paths = discover_rollouts(home, true, &sessions, &archived).expect("rollouts should be discovered");
    assert_eq!(
        paths,
        vec![
            format!("{home}/archived_sessions/2026/09/02/rollout-archived.jsonl.zst"),
            format!("{home}/sessions/2026/09/02/rollout-active.jsonl"),
        ]
    );
    let active = discover_active_rollouts(home, true, &sessions).expect("active rollouts");
    assert_eq!(active, vec![format!("{home}/sessions/2026/09/02/rollout-active.jsonl")]);
}

#[test]
fn discovery_needs_the_home_directory_and_reports_walk_errors() {
    let missing = WalkListing { exists: false, entries: Vec::new() };
    assert_eq!(
        discover_rollouts("/nowhere", false, &missing, &missing),
        Err(RolloutError::CodexHomeUnavailable {
            path: "/nowhere".to_string(),
            message: "directory does not exist".to_string()
        })
    );
    assert_eq!(discover_active_rollouts("/home/a", true, &missing), Ok(Vec::new()));
    let broken = WalkListing { exists: true, entries: vec![Err("permission denied".to_string())] };
    assert_eq!(
        discover_rollouts("/home/a", true, &missing, &broken),
        Err(RolloutError::Scan { path: "/home/a/archived_sessions".to_string(), message: "permission denied".to_string() })
    );
}

#[test]
fn rollout_names_need_the_prefix_and_a_known_suffix() {
    assert!(is_rollout_name("rollout-1.jsonl"));
    assert!(is_rollout_name("rollout-1.jsonl.zst"));
    assert!(!is_rollout_name("rollout-1.json"));
    assert!(!is_rollout_name("notes.jsonl"));
}
