[package]
name = "cribcall_quic"
version = "0.1.0"
edition = "2021"
publish = false

[dependencies]
allo-isolate = "0.1"
android_logger = "0.13"
base64 = "0.22"
dashmap = "5"
env_logger = "0.11"
hex = "0.4"
log = "0.4"
once_cell = "1"
quiche = "0.22"
rand = "0.8"
serde = { version = "1", features = ["derive"] }
serde_json = "1"
sha2 = "0.10"
