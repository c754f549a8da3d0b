[package]
name = "ai_audit"
version = "0.1.0"
edition = "2021"
publish = false

[dependencies]
anyhow = "1"
base64 = "0.22"
blake3 = { version = "1", features = ["pure"] }
chrono = { version = "0.4", features = ["serde"] }
dirs = "*"
log = "0.4"
regex = "1"
reqwest = { version = "0.12", default-features = false, features = ["blocking", "json"] }
rusqlite = { version = "*", features = ["bundled"] }
serde = { version = "1", features = ["derive"] }
serde_json = "1"
serde_yaml = "0.9"
wait-timeout = "0.2"
