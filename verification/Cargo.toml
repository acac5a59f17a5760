[package]
name = "tvid"
version = "0.1.0"
edition = "2021"
publish = false

[dependencies]
unicode-width = "0.2"
base64 = "0.22"
jpeg-encoder = "0.6"
parking_lot = "0.12"
tokio = { version = "1", features = ["full"] }
anyhow = "1"
clap = { version = "4", features = ["derive"] }
chrono = "0.4"
toml_edit = { version = "0.22", features = ["serde"] }
serde = { version = "1", features = ["derive"] }
shellexpand = "3"
sys-locale = "0.3"
libc = "0.2"
ffmpeg-next = "*"
cpal = "*"
russh = "*"
