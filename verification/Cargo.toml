[package]
name = "aegis_proxy"
version = "0.1.0"
edition = "2021"
publish = false

[dependencies]
dashmap = "5.5"
hyper = { version = "0.14", features = ["server", "http1", "tcp"] }
lazy_static = "1"
once_cell = "1"
pin-project-lite = "0.2"
prometheus = { version = "0.13", default-features = false }
serde = { version = "1", features = ["derive"] }
serde_yaml = "0.9"
tokio = { version = "1", features = ["full"] }
tokio-util = "0.7"
tracing = "0.1"
tracing-subscriber = { version = "0.3", features = ["env-filter", "json"] }
