[package]
name = "agentero"
version = "0.1.0"
edition = "2021"
publish = false

[dependencies]
agent-client-protocol = "2"
flate2 = "1"
log = "0.4"
serde = { version = "1", features = ["derive"] }
serde_json = "1"
specta = "1"
tokio = { version = "1", features = ["process", "time", "rt", "macros"] }
urlencoding = "2"
uuid = { version = "1", features = ["v4"] }
walkdir = "2"
which = "*"
