# codex-route

`codex-route` resolves a Codex `session_id` to the workspace recorded in the
Codex rollout metadata, keeps a catalog of model providers (local ones and
ones imported from cc-switch), routes Codex Responses requests to the provider
chosen for the request's workspace, and manages the activation of that route
in Codex's `config.toml`.

The crate is written in Verus. Its logic lives in `src/`, where Verus proves
each function against its contract. The few functions there that call
`serde_json`, `toml`, the `url` parser behind `reqwest`, or std's clock,
`String::push` and `Path::parent` are marked `external_body`: their contracts are trusted, not
proved, and each says what it claims of the call it makes. The program around
the library lives in `app/` and does the I/O.

## Layout

- `src/text.rs`, `src/paths.rs`, `src/sets.rs`, `src/numfmt.rs`: strings,
  paths, ordered sets and decimal numbers, with their specifications.
- `src/json.rs`, `src/toml_doc.rs`: JSON and TOML documents as trees of the
  library's own types; decoding and writing go through `serde_json` and `toml`.
- `src/rollout.rs`, `src/index.rs`, `src/config.rs`, `src/codex_projects.rs`:
  rollout discovery, `session_meta` parsing, the session/workspace index and
  its selection rules.
- `src/provider.rs`, `src/codex_provider.rs`, `src/cc_switch_import.rs`,
  `src/provider_store.rs`, `src/workspace_rule.rs`, `src/secrets.rs`: the
  provider catalog, cc-switch import and its conflict policies, workspace route
  rules and secret redaction.
- `src/route.rs`: provider selection, upstream URLs and headers, error answers.
- `src/lifecycle.rs`: activation and deactivation decisions for `config.toml`.
- `src/diagnostics.rs`, `src/client.rs`: the desktop client's diagnostics log,
  settings, runtime state and tray model.
- `app/`: the command line, the HTTP server, SQLite storage, file walking and
  process management.
