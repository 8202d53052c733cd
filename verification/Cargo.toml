[package]
name = "tape_rs"
version = "0.1.0"
edition = "2021"
publish = false

[dependencies]
base64 = "0.22"
chrono = "0.4"
clap = { version = "4", features = ["derive"] }
env_logger = "0.11"
log = "0.4"
nix = { version = "*", features = ["signal"] }
protobuf = "2"
raft = "0.7"
rusqlite = { version = "*", features = ["bundled"] }
serde_json = "1"
sha2 = "0.10"
uuid = { version = "1", features = ["v4"] }
