[package]
name = "repo_analyzer_core"
version = "0.1.0"
edition = "2021"
publish = false

[dependencies]
base64 = "0.22"
hmac = "0.12"
sha2 = "0.10"
serde = { version = "1", features = ["derive"] }
serde_json = "1"
rusqlite = { version = "*", features = ["bundled"] }
sled = "0.34"
walkdir = "2"
thiserror = "*"
duckdb = { version = "*", default-features = false }
