[package]
name = "kquery"
version = "0.1.0"
edition = "2021"
publish = false

[dependencies]
anyhow = "*"
async-walkdir = "*"
ciborium = "*"
clap = { version = "*", features = ["derive", "env"] }
clex = "*"
either = "*"
futures-lite = "*"
globset = "*"
log = "*"
lovely_env_logger = "*"
lz4_flex = "*"
pin-project = "*"
rlimit = "*"
serde = { version = "*", features = ["derive"] }
serde_json = "*"
tokio = { version = "*", features = ["fs", "io-util", "rt", "rt-multi-thread", "sync", "macros"] }
