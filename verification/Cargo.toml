[package]
name = "cargo-schnee"
version = "0.1.0"
edition = "2021"
publish = false

[dependencies]
anyhow = "1"
cargo-platform = "0.3"
clap = { version = "4", features = ["derive"] }
env_logger = { version = "0.11", default-features = false }
fs2 = "0.4"
git2 = { version = "0.20", default-features = false }
glob = "0.3"
log = "0.4"
serde = { version = "1", features = ["derive"] }
serde_json = "1"
sha2 = "0.10"
signal-hook = "0.3"
tempfile = "3"
toml = "0.9"
tracing = "0.1"
