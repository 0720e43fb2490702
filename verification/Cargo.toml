[package]
name = "sousarc"
version = "0.1.0"
edition = "2021"
publish = false

[dependencies]
ulid = "1"
serde = { version = "1", features = ["derive"] }
serde_json = "1"
rmp-serde = "1"
csv = "1"
chrono = "0.4"
argon2 = "0.5"
password-hash = "0.5"
axum = "0.8"
hyper = "1"
tokio = { version = "1", features = ["full"] }
tracing = "0.1"
tracing-appender = "0.2"
tracing-subscriber = "0.3"
