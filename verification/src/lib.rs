#![verifier::loop_isolation(false)]
pub mod json;
pub mod text;
pub mod toml_doc;
pub mod codex_provider;
pub mod provider;
pub mod paths;
pub mod workspace_rule;
pub mod config;
pub mod rollout;
pub mod sets;
pub mod index;
pub mod codex_projects;
pub mod diagnostics;
pub mod secrets;
pub mod numfmt;
pub mod lifecycle;
pub mod client;
pub mod cc_switch_import;
pub mod provider_store;
pub mod route;
pub mod cli;
