[package]
name = "livekit_monitor"
version = "0.1.0"
edition = "2021"
publish = false

[dependencies]
rusqlite = { version = "*", features = ["bundled"] }
serde = { version = "1", features = ["derive"] }
serde_json = "1"
livekit-api = "*"
livekit-protocol = "*"
warp = "0.3"
tokio = { version = "1", features = ["full"] }
tokio-stream = { version = "0.1", features = ["sync"] }
log = "0.4"
env_logger = "*"
include_dir = "0.7"
