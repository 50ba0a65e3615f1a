[package]
name = "node_discovery"
version = "0.1.0"
edition = "2021"
publish = false

[dependencies]
rand = "0.8"
tokio = { version = "*", features = ["rt-multi-thread", "macros", "time", "sync", "signal"] }
reqwest = { version = "*", default-features = false, features = ["json", "http2"] }
serde = { version = "*", features = ["derive"] }
serde_json = "*"
async-channel = "*"
uuid = { version = "*", features = ["v4"] }
toml = "*"
log = "*"
signal-hook = "*"
