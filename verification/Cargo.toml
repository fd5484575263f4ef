[package]
name = "camstream"
version = "0.1.0"
edition = "2021"
publish = false

[dependencies]
tokio = { version = "1", features = ["full"] }
hyper = { version = "0.14", features = ["http1", "server", "tcp"] }
argh = "0.1"
log = "0.4"
env_logger = "*"
