[package]
name = "yscale"
version = "0.1.0"
edition = "2021"
publish = false

[dependencies]
alsa = "0.9"
anyhow = "1"
axum = { version = "0.7", features = ["ws"] }
clap = { version = "4", features = ["derive"] }
ctrlc = "3"
hound = "3"
mime_guess = "2"
rust-embed = "8"
serde = { version = "1", features = ["derive"] }
serde_json = "1"
tokio = { version = "1", features = ["full"] }
toml = "0.8"
