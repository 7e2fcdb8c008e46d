[package]
name = "ipc_poc_backend"
version = "0.1.0"
edition = "2021"
publish = false

[dependencies]
prost = "0.13"
serde_json = "1"
bytes = "1"
tokio = { version = "1", features = ["rt-multi-thread", "macros", "net", "io-util", "fs", "time", "sync"] }
tonic = { version = "0.12", default-features = false, features = ["codegen", "prost"] }
tracing = "0.1"
tracing-subscriber = "0.3"
