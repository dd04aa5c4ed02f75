[package]
name = "micsync"
version = "0.5.0"
edition = "2021"
publish = false

[dependencies]
cpal = "0.15"
gethostname = "0.5"
local-ip-address = "0.6"
serde = { version = "1", features = ["derive"] }
serde_json = "1"
