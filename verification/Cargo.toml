[package]
name = "livesplit_hotkeys"
version = "0.1.0"
edition = "2021"
publish = false

[dependencies]
anyhow = "1"
async-std = { version = "1", features = ["attributes"] }
clap = { version = "4", features = ["derive"] }
futures = "0.3"
input_event_codes_hashmap = "*"
quick-xml = "*"
