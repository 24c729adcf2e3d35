[package]
name = "req_engine"
version = "0.1.0"
edition = "2021"
publish = false

[dependencies]
serde = { version = "=1.0.229", features = ["derive"] }
serde_json = "=1.0.154"
serde_yaml = "=0.9.34"
toml = "=0.8.23"
chrono = "=0.4.45"
blake3 = { version = "=1.8.7", features = ["pure"] }
sha2 = "0.10"
walkdir = "=2.5.0"
rusqlite = { version = "=0.31.0", features = ["bundled"] }
anyhow = "=1.0.104"
thiserror = "=1.0.69"
clap = { version = "=4.6.7", features = ["derive"] }
colored = "=2.2.0"
