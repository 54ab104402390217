use codex_route::config::ScanConfig;
use codex_route::index::{ResolveError, SessionWorkspaceIndex, WorkspaceFact, WorkspaceFacts};
use codex_route::rollout::{RolloutError, RolloutFile, RolloutSessionMeta, RolloutSource};

const SECOND: i128 = 1_000_000_000;

fn fixture_path(name: &str) -> String {
    format!("/tmp/codex-route-index-tests/{name}")
}

fn record(session_id: &str, thread_id: &str, workspace: &str, timestamp: &str) -> RolloutSessionMeta {
    RolloutSessionMeta {
        session_id: session_id.to_string(),
        thread_id: thread_id.to_string(),
        workspace: workspace.to_string(),
        source: RolloutSource::Legacy,
        timestamp: Some(timestamp.to_string()),
        rollout_path: fixture_path(&format!("{thread_id}.jsonl")),
        archived: false,
        modified_at: Some(SECOND),
    }
}

fn no_facts() -> WorkspaceFacts {
    WorkspaceFacts { facts: Vec::new() }
}

fn index_of(records: Vec<RolloutSessionMeta>) -> SessionWorkspaceIndex {
    let scans: Vec<Result<Option<RolloutSessionMeta>, RolloutError>> =
        records.into_iter().map(|record| Ok(Some(record))).collect();
    SessionWorkspaceIndex::from_scans(scans, no_facts()).expect("index should build")
}

#[test]
fn resolves_same_session_across_threads() {
    let repo = fixture_path("repo");
    let index = index_of(vec![
        record("S", "T1", &repo, "2026-01-01T00:00:00Z"),
        record("S", "T2", &repo, "2026-01-02T00:00:00Z"),
    ]);

    let result = index.resolve("S").expect("session should resolve");
    assert_eq!(result.workspace, repo);
    assert_eq!(result.thread_ids, vec!["T1", "T2"]);
    assert_eq!(result.workspaces, vec![repo]);
    assert!(!result.conflicting_workspaces);
}

#[test]
fn reports_conflicting_workspaces_and_selects_oldest_metadata() {
    let new_workspace = fixture_path("new");
    let old_workspace = fixture_path("old");
    let index = index_of(vec![
        record("S", "T2", &new_workspace, "2026-01-02T00:00:00Z"),
        record("S", "T1", &old_workspace, "2026-01-01T00:00:00Z"),
    ]);

    let result = index.resolve("S").expect("session should resolve");
    assert_eq!(result.workspace, old_workspace);
    assert_eq!(result.workspaces, vec![new_workspace, old_workspace]);
    assert!(result.conflicting_workspaces);
}

#[test]
fn latest_workspace_prefers_recent_active_session() {
    let old_workspace = fixture_path("old-active");
    let new_workspace = fixture_path("new-active");
    let archived_workspace = fixture_path("newer-archived");
    let mut archived = record("ARCHIVED", "TA", &archived_workspace, "2026-01-03T00:00:00Z");
    archived.archived = true;
    archived.modified_at = Some(30 * SECOND);
    let mut old = record("OLD", "T1", &old_workspace, "2026-01-01T00:00:00Z");
    old.modified_at = Some(10 * SECOND);
    let mut new = record("NEW", "T2", &new_workspace, "2026-01-02T00:00:00Z");
    new.modified_at = Some(20 * SECOND);
    let index = index_of(vec![archived, old, new]);

    let latest = index.latest_workspace().expect("latest workspace");
    assert_eq!(latest.session_id, "NEW");
    assert_eq!(latest.workspace, new_workspace);
}

#[test]
fn latest_workspace_falls_back_to_archived_sessions() {
    let mut archived = record("ARCHIVED", "TA", &fixture_path("archived"), "2026-01-03T00:00:00Z");
    archived.archived = true;
    let index = index_of(vec![archived]);
    assert_eq!(index.latest_workspace().expect("latest workspace").session_id, "ARCHIVED");
    assert!(index_of(Vec::new()).latest_workspace().is_none());
}

#[test]
fn rejects_empty_and_unknown_sessions() {
    let index = SessionWorkspaceIndex::from_scans(Vec::new(), no_facts()).expect("empty index");
    assert_eq!(index.resolve("  "), Err(ResolveError::EmptySessionId));
    assert_eq!(index.resolve("missing"), Err(ResolveError::SessionNotFound("missing".to_string())));
}

#[test]
fn lists_unique_session_ids_in_order() {
    let index = index_of(vec![
        record("session-b", "T1", &fixture_path("b"), "2026-01-01T00:00:00Z"),
        record("session-a", "T2", &fixture_path("a"), "2026-01-01T00:00:00Z"),
        record("session-b", "T3", &fixture_path("b"), "2026-01-01T00:00:00Z"),
    ]);
    assert_eq!(index.session_ids(), vec!["session-a".to_string(), "session-b".to_string()]);
}

#[test]
fn aggregates_active_workspaces_by_recency_and_path() {
    let recent_workspace = fixture_path("recent");
    let older_workspace = fixture_path("older");
    let archived_workspace = fixture_path("archived-only");
    let mut archived = record("ARCHIVED", "TA", &archived_workspace, "2026-01-03T00:00:00Z");
    archived.archived = true;
    archived.modified_at = Some(300 * SECOND);
    let mut recent_a = record("RECENT", "T1", &recent_workspace, "2026-01-01T00:00:00Z");
    recent_a.modified_at = Some(200 * SECOND);
    let mut recent_b = record("RECENT", "T2", &recent_workspace, "2026-01-02T00:00:00Z");
    recent_b.modified_at = Some(250 * SECOND);
    let mut older = record("OLDER", "TO", &older_workspace, "2026-01-01T00:00:00Z");
    older.modified_at = Some(100 * SECOND);

    let index = index_of(vec![archived, recent_a, recent_b, older]);

    let workspaces = index.workspaces();
    assert_eq!(workspaces.len(), 2);
    assert_eq!(workspaces[0].workspace, recent_workspace);
    assert_eq!(workspaces[0].session_ids, vec!["RECENT".to_string()]);
    assert_eq!(workspaces[0].thread_ids, vec!["T1".to_string(), "T2".to_string()]);
    assert_eq!(workspaces[0].last_activity, Some(250));
    assert_eq!(workspaces[1].workspace, older_workspace);
}

#[test]
fn workspaces_without_activity_come_last_then_by_path() {
    let mut b = record("B", "TB", &fixture_path("b"), "2026-01-01T00:00:00Z");
    b.modified_at = None;
    let mut a = record("A", "TA", &fixture_path("a"), "2026-01-01T00:00:00Z");
    a.modified_at = None;
    let c = record("C", "TC", &fixture_path("c"), "2026-01-01T00:00:00Z");
    let workspaces = index_of(vec![b, a, c]).workspaces();
    let order: Vec<String> = workspaces.iter().map(|w| w.workspace.clone()).collect();
    assert_eq!(order, vec![fixture_path("c"), fixture_path("a"), fixture_path("b")]);
    assert_eq!(workspaces[1].last_activity, None);
}

#[test]
fn marks_workspace_when_a_session_has_conflicting_active_workspaces() {
    let left = fixture_path("left");
    let right = fixture_path("right");
    let index = index_of(vec![
        record("S", "T1", &left, "2026-01-01T00:00:00Z"),
        record("S", "T2", &right, "2026-01-02T00:00:00Z"),
    ]);

    let workspaces = index.workspaces();
    assert_eq!(workspaces.len(), 2);
    assert!(workspaces.iter().all(|workspace| workspace.conflicting_sessions));
}

#[test]
fn canonical_facts_merge_workspaces() {
    let link = fixture_path("link");
    let real = fixture_path("real");
    let facts = WorkspaceFacts {
        facts: vec![WorkspaceFact { path: link.clone(), canonical: Some(real.clone()), exists: true }],
    };
    let scans = vec![
        Ok(Some(record("S", "T1", &link, "2026-01-01T00:00:00Z"))),
        Ok(Some(record("S", "T2", &real, "2026-01-02T00:00:00Z"))),
    ];
    let index = SessionWorkspaceIndex::from_scans(scans, facts).expect("index");
    let result = index.resolve("S").expect("session");
    assert_eq!(result.workspace, real);
    assert!(result.workspace_exists);
    assert!(!result.conflicting_workspaces);
}

#[test]
fn scan_errors_other_than_the_size_limit_fail_the_index() {
    let scans = vec![
        Err(RolloutError::ScanLimitExceeded { path: fixture_path("big.jsonl"), limit: 10 }),
        Ok(Some(record("S", "T1", &fixture_path("repo"), "2026-01-01T00:00:00Z"))),
    ];
    assert!(SessionWorkspaceIndex::from_scans(scans, no_facts()).is_ok());
    let scans = vec![
        Ok(None),
        Err(RolloutError::Read { path: fixture_path("bad.jsonl"), message: "denied".to_string() }),
    ];
    assert!(SessionWorkspaceIndex::from_scans(scans, no_facts()).is_err());
}

fn rollout_line(session_id: &str, thread_id: &str, cwd: &str, timestamp: &str) -> Vec<u8> {
    format!(
        "{{\"timestamp\":\"{timestamp}\",\"type\":\"session_meta\",\"payload\":{{\"session_id\":\"{session_id}\",\"id\":\"{thread_id}\",\"timestamp\":\"{timestamp}\",\"cwd\":\"{cwd}\",\"originator\":\"codex\",\"cli_version\":\"test\"}}}}\n"
    )
    .into_bytes()
}

fn rollout_file(home: &str, directory: &str, name: &str, line: Vec<u8>) -> RolloutFile {
    RolloutFile {
        path: format!("{home}/{directory}/2026/09/02/{name}"),
        prefix: line,
        modified_at: Some(SECOND),
        open_error: None,
        read_error: None,
    }
}

fn config(home: &str) -> ScanConfig {
    ScanConfig { codex_home: home.to_string(), max_rollout_bytes: 64 * 1024 }
}

#[test]
fn groups_active_and_archived_threads_by_session() {
    let home = "/tmp/codex-route-home-a";
    let repo = format!("{home}/repo");
    let other = format!("{home}/other");
    let files = vec![
        rollout_file(home, "sessions", "rollout-a.jsonl", rollout_line("S", "T1", &repo, "2026-01-01T00:00:00Z")),
        rollout_file(home, "archived_sessions", "rollout-b.jsonl", rollout_line("S", "T2", &repo, "2026-01-02T00:00:00Z")),
        rollout_file(home, "sessions", "rollout-other.jsonl", rollout_line("OTHER", "T3", &other, "2026-01-01T00:00:00Z")),
    ];
    let index = SessionWorkspaceIndex::build(&config(home), files, no_facts()).expect("index should build");
    assert_eq!(index.session_ids(), vec!["OTHER".to_string(), "S".to_string()]);
    let result = index.resolve("S").expect("session should resolve");

    assert_eq!(result.workspace, repo);
    assert_eq!(result.thread_ids, vec!["T1".to_string(), "T2".to_string()]);
    assert_eq!(result.workspaces, vec![repo]);
    assert!(!result.conflicting_workspaces);
}

#[test]
fn reports_conflicting_workspaces_without_guessing_parent_lineage() {
    let home = "/tmp/codex-route-home-b";
    let repo = format!("{home}/repo");
    let worktree = format!("{home}/repo-worktree");
    let files = vec![
        rollout_file(home, "sessions", "rollout-new.jsonl", rollout_line("S", "T2", &worktree, "2026-01-02T00:00:00Z")),
        rollout_file(home, "sessions", "rollout-old.jsonl", rollout_line("S", "T1", &repo, "2026-01-01T00:00:00Z")),
    ];
    let result = SessionWorkspaceIndex::build(&config(home), files, no_facts())
        .expect("index should build")
        .resolve("S")
        .expect("session should resolve");

    assert_eq!(result.workspace, repo);
    assert_eq!(result.workspaces, vec![repo, worktree]);
    assert!(result.conflicting_workspaces);
}

#[test]
fn unknown_session_is_distinct_from_empty_session_id() {
    let index = SessionWorkspaceIndex::build(&config("/tmp/codex-route-home-c"), Vec::new(), no_facts())
        .expect("empty home should be indexable");

    assert_eq!(index.resolve("missing"), Err(ResolveError::SessionNotFound("missing".into())));
    assert_eq!(index.resolve("  "), Err(ResolveError::EmptySessionId));
}

#[test]
fn active_index_excludes_archived_session_ids() {
    let home = "/tmp/codex-route-home-d";
    let workspace = format!("{home}/project");
    let files: Vec<RolloutFile> = Vec::new();
    let index = SessionWorkspaceIndex::build_active(&config(home), files, no_facts()).expect("index should build");
    assert!(index.session_ids().is_empty());
    assert!(index.workspaces().is_empty());
    let archived =
        rollout_file(home, "archived_sessions", "rollout-archived.jsonl", rollout_line("ARCHIVED", "TA", &workspace, "2026-01-03T00:00:00Z"));
    let full = SessionWorkspaceIndex::build(&config(home), vec![archived], no_facts()).expect("index");
    assert_eq!(full.session_ids(), vec!["ARCHIVED".to_string()]);
    assert!(full.workspaces().is_empty());
}
