[package]
name = "shadow_json"
version = "0.1.0"
edition = "2021"
publish = false

[dependencies]
serde_json = "1"
jsonpath-rust = "1"
thiserror = "1"
tracing = "0.1"
tracing-subscriber = "0.3"
copypasta = "*"
rfd = "*"
