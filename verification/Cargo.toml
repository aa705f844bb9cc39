[package]
name = "remotedesk"
version = "0.1.0"
edition = "2021"
publish = false

[dependencies]
anyhow = "1"
bincode = "1"
core-foundation = "0.9"
core-graphics = "0.23"
egui = "0.27"
image = { version = "0.24", default-features = false, features = ["png"] }
local-ip-address = "0.5"
tokio = { version = "1", features = ["io-util", "macros", "net", "rt-multi-thread", "sync", "time"] }
tracing = "0.1"
tracing-subscriber = { version = "0.3", features = ["env-filter"] }

[dev-dependencies]
serde = "1"
