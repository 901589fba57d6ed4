[package]
name = "glacier"
version = "0.1.0"
edition = "2021"
publish = false

[dependencies]
serde = "1"
serde_qs = "*"
serde_json = "1"
tokio = { version = "1", features = ["net", "io-util", "time", "rt-multi-thread", "sync"] }
tokio-rustls = "0.26"
rustls = "0.23"
rustls-pemfile = "2"
tracing = "0.1"
hyper = { version = "1", features = ["server", "http1"] }
hyper-util = { version = "0.1", features = ["tokio"] }
http-body-util = "0.1"
