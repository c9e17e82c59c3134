[package]
name = "tachidesk"
version = "0.1.0"
edition = "2021"
publish = false

[dependencies]
env_logger = "0.9"
gettext-rs = "0.7"
gtk4 = "0.5"
log = "0.4"
once_cell = "1"
reqwest = { version = "0.11", features = ["json"] }
serde = { version = "1", features = ["derive"] }
tokio = { version = "1", features = ["rt-multi-thread"] }
