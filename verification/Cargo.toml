[package]
name = "watcher"
version = "0.1.0"
edition = "2021"
publish = false

[dependencies]
anyhow = "1"
async-channel = "2"
chrono = "0.4"
futures = "0.3"
log = "0.4"
notify-debouncer-full = "*"
serde_json = "1"
