[package]
name = "odilia_cache"
version = "0.1.0"
edition = "2021"
publish = false

[dependencies]
async-channel = "*"
atspi = "*"
futures-lite = "*"
serde = { version = "*", features = ["derive"] }
tokio-util = "*"
zbus = "*"
