[package]
name = "breez_sdk_bindings"
version = "0.1.0"
edition = "2021"
publish = false

[dependencies]
anyhow = "1"
hex = "0.4"
lazy_static = "1"
log = "0.4"
once_cell = "1"
tokio = { version = "1", features = ["rt-multi-thread"] }
tracing = "0.1"
tracing-log = "0.1"
tracing-subscriber = "0.3"
