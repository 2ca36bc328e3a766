[package]
name = "channelserver"
version = "0.1.0"
edition = "2021"
publish = false

[dependencies]
rand = "*"
actix = "*"
actix-rt = "*"
actix-web = "*"
actix-web-actors = "*"
cadence = "*"
config = "*"
env_logger = "*"
maxminddb = "*"
serde = { version = "*", features = ["derive"] }
serde_json = "*"
slog = "*"
slog-async = "*"
slog-mozlog-json = "*"
slog-term = "*"
