[package]
name = "norupo"
version = "0.1.0"
edition = "2021"
publish = false

[dependencies]
anyhow = "1"
async-trait = "0.1"
bytes = "1"
clap = { version = "4", features = ["derive", "env"] }
dashmap = "6"
http = "1"
http-body-util = "0.1"
hyper = { version = "1", features = ["full"] }
hyper-util = { version = "0.1", features = ["full"] }
prost = "*"
rand = "*"
redis = { version = "*", features = ["tokio-comp", "connection-manager", "script"] }
serde = { version = "1", features = ["derive"] }
serde_json = "1"
thiserror = "2"
tokio = { version = "1", features = ["full"] }
tokio-stream = { version = "0.1", features = ["net", "sync"] }
tonic = "*"
tonic-prost = "*"
tracing = "0.1"
tracing-subscriber = { version = "0.3", features = ["env-filter"] }
