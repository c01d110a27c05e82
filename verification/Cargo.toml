[package]
name = "audiosync_core"
version = "3.1.1"
edition = "2021"
publish = false

[dependencies]
anyhow = "*"
chrono = "*"
clap = { version = "*", features = ["derive"] }
dirs = "*"
env_logger = "*"
hound = "*"
log = "*"
regex = "*"
rubato = "*"
rustfft = "*"
serde = { version = "*", features = ["derive"] }
serde_json = "*"
symphonia = { version = "*", features = ["mp3"] }
uuid = { version = "*", features = ["v4"] }
