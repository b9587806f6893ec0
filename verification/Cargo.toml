[package]
name = "brz-http-gateway"
version = "0.1.0"
edition = "2021"
publish = false

[dependencies]
brz-http-router = "*"
bytes = "1"
http = "1"
http-body-util = "0.1"
hyper = { version = "1", features = ["client", "http1", "server"] }
hyper-util = { version = "0.1", features = ["client-legacy", "http1", "tokio"] }
serde = { version = "1", features = ["derive"] }
thiserror = "2"
tokio = { version = "1", features = ["io-util", "macros", "net", "rt-multi-thread", "sync", "time"] }
toml = "*"
tracing = "0.1"
