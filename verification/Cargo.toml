[package]
name = "stars"
version = "0.1.0"
edition = "2021"
publish = false

[dependencies]
kamadak-exif = "0.5"
chrono = "0.4"
image = { version = "0.25", default-features = false, features = ["jpeg", "png"] }
base64 = "0.22"
anyhow = "1"
axum = { version = "0.7", features = ["multipart"] }
tokio = { version = "1", features = ["full"] }
clap = { version = "4", features = ["derive"] }
crossterm = "0.28"
ratatui = "0.29"
csv = "1"
kiddo = "5"
nalgebra = "0.33"
rand = "0.8"
serde = { version = "1", features = ["derive"] }
serde_json = "1"
sgp4 = "2"
