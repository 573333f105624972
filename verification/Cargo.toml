[package]
name = "tracing_subscriber_serde"
version = "0.1.0"
edition = "2021"
publish = false

[dependencies]
flume = "*"
tracing = "*"
tracing-subscriber = "*"
ansi_term = "*"

[dev-dependencies]
serde_json = "*"
