[package]
name = "gal-runtime"
version = "0.1.0"
edition = "2021"
publish = false

[dependencies]
num-bigint = { version = "0.4", features = ["serde"] }
serde = { version = "1", features = ["derive"] }
rmp-serde = "1"
serde_json = "1"
anyhow = "1"
log = { version = "0.4", features = ["serde"] }
tokio = { version = "1", features = ["fs", "rt", "macros", "sync"] }
tokio-stream = { version = "0.1", features = ["fs"] }
futures-util = "0.3"
dirs = "5"
wasmer = "2"
wasmer-wasi = "2"
