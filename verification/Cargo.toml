[package]
name = "gatebook"
version = "0.1.0"
edition = "2021"
publish = false

[dependencies]
downcast-rs = "*"
env_logger = "*"
futures = "0.3"
log = "0.4"
ntex = { version = "2", features = ["tokio", "rustls"] }
once_cell = "1"
ratelimit = "0.10"
rust_decimal = "1"
rustls = "0.23"
serde = { version = "1", features = ["derive"] }
serde_json = "1"
thiserror = "*"
webpki-roots = "*"
