[package]
name = "wsprrs"
version = "0.1.0"
edition = "2021"
publish = false

[dependencies]
anyhow = "1"
console-subscriber = "0.4"
ctrlc = "3"
dotenvy = "0.15"
indicatif = "0.17"
serde = { version = "1", features = ["derive"] }
serde_json = "1"
socket2 = { version = "0.5", features = ["all"] }
tempfile = "3"
thiserror = "1"
tokio = { version = "1", features = ["full"] }
tracing = "0.1"
tracing-subscriber = { version = "0.3", features = ["env-filter"] }
