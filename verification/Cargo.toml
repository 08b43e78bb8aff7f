[package]
name = "anime_organizer_rs"
version = "0.1.0"
edition = "2021"
publish = false

[dependencies]
regex = "*"
log = "*"
dotenv = "*"
env_logger = "*"
serde = { version = "*", features = ["derive"] }
serde_yaml = "*"
