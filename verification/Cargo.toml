[package]
name = "audio_vm"
version = "0.1.0"
edition = "2021"
publish = false

[dependencies]
anyhow = "=1.0.104"
rand = "=0.8.8"
serde = { version = "=1.0.229", features = ["derive"] }
serde_json = "=1.0.151"
