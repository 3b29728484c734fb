[package]
name = "rust_bot_plugin"
version = "0.1.0"
edition = "2021"
publish = false

[dependencies]
sled = "*"
rand = "*"
chrono = "*"
anyhow = "*"
tokio = { version = "*", features = ["rt-multi-thread", "time", "sync", "macros"] }
tokio-util = { version = "*", features = ["time"] }
notify = "*"
libloading = "*"
