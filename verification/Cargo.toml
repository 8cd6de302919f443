[package]
name = "tournament_core"
version = "0.1.0"
edition = "2021"
publish = false

[dependencies]
rand = "0.9"
round_robin = "*"
rplcs_events = "*"
anyhow = "1"
log = "0.4"
env_logger = "0.11"
serde = { version = "1", features = ["derive"] }
serde_json = "1"
tokio = { version = "1", features = ["rt-multi-thread", "macros", "time", "process", "sync"] }
reqwest = { version = "0.12", default-features = false, features = ["json"] }
rusqlite = { version = "*", features = ["bundled"] }
r2d2 = "0.8"
r2d2_sqlite = "*"
figment = { version = "0.10", features = ["toml", "env"] }
layout-rs = "*"
