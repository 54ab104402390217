[package]
name = "codex_route"
version = "0.1.0"
edition = "2021"
publish = false

[dependencies]
serde = { version = "1", features = ["derive"] }
serde_json = "1"
toml = "0.8"
reqwest = { version = "0.12", features = ["stream"] }
axum = "0.7"
tokio = { version = "1", features = ["full"] }
futures-util = "0.3"
rusqlite = { version = "0.32", features = ["bundled"] }
walkdir = "2"
zstd = "0.13"
clap = { version = "4", features = ["derive"] }
dirs = "5"
thiserror = "1"
log = "0.4"

[dev-dependencies]
tempfile = "3"
