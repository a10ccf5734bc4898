[package]
name = "audio_core"
version = "0.1.0"
edition = "2021"
publish = false

[dependencies]
serde = { version = "1", features = ["derive"] }
serde_json = "1"
anyhow = "1"
dirs = "*"
rustfft = "*"
image = { version = "*", default-features = false, features = ["png"] }
tray-icon = "*"
coreaudio-sys = { version = "*", default-features = false }
