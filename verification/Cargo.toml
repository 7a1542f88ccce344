[package]
name = "flashblocks_explorer"
version = "0.1.0"
edition = "2021"
publish = false

[dependencies]
alloy = { version = "0.7", default-features = false, features = ["std", "providers", "rpc-types", "network"] }
alloy-primitives = "0.8"
alloy-rpc-types-eth = { version = "0.7", default-features = false, features = ["std"] }
axum = { version = "0.8", default-features = false, features = ["tokio", "http1", "json"] }
eyre = "0.6"
futures-util = { version = "0.3", default-features = false, features = ["std"] }
hex = "0.4"
serde = { version = "1", features = ["derive"] }
serde_json = "1"
tokio = { version = "1", features = ["rt-multi-thread", "macros", "net", "time", "sync"] }
tower-http = { version = "0.6", default-features = false, features = ["cors"] }
tracing = "0.1"
url = "2"
