[package]
name = "plugin_host"
version = "0.1.0"
edition = "2021"
publish = false

[dependencies]
anyhow = "1"
chrono = "0.4"
format_num = "0.1"
futures = "0.3"
irc = "0.15"
libloading = "0.8"
notify = "6"
regex = "1"
reqwest = { version = "0.11", features = ["json"] }
rust-ini = "*"
serde = { version = "1", features = ["derive"] }
serde_json = "1"
tokio = { version = "1", features = ["rt-multi-thread", "macros", "time"] }
