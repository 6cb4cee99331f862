[package]
name = "statlog"
version = "0.1.0"
edition = "2021"
publish = false

[dependencies]
time = "0.3"
serde = { version = "1", features = ["derive"] }
serde_json = "1"
tokio = { version = "1", features = ["rt-multi-thread", "macros", "signal", "time", "net"] }
hyper = { version = "0.14", features = ["server", "client", "http1", "tcp"] }
log = "0.4"
env_logger = "0.11"
