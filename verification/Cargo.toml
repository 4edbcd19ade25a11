[package]
name = "hyprgram"
version = "0.1.0"
edition = "2021"
publish = false

[dependencies]
ringbuf = "0.4"
rayon = "1"
realfft = "3"
rustfft = "6"
serde = { version = "1", features = ["derive"] }
toml = "0.8"
image = { version = "0.25", default-features = false, features = ["png"] }
clap = { version = "4", features = ["derive"] }
anyhow = "1"
symphonia = { version = "0.5", features = ["mp3", "aac", "isomp4"] }
