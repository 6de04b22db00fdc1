[package]
name = "resp_server"
version = "0.1.0"
edition = "2021"
publish = false

[dependencies]
bytes = "1"
hyper = { version = "0.14", features = ["server", "http1", "tcp"] }
prometheus = { version = "0.13", default-features = false }
tracing = "0.1"
