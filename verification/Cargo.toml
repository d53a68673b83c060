[package]
name = "chat_archive"
version = "0.1.0"
edition = "2021"
publish = false

[dependencies]
anyhow = "1"
async-trait = "*"
chrono = "0.4"
clap = { version = "4", features = ["derive"] }
env_logger = "*"
log = "*"
rust-tdlib = "*"
serde = { version = "1", features = ["derive"] }
serde_yaml = "*"
thiserror = "*"
tokio = { version = "1", features = ["full"] }
