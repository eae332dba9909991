[package]
name = "helix_db"
version = "0.1.0"
edition = "2021"
publish = false

[dependencies]
regex = "1"
serde = { version = "1", features = ["derive"] }
serde_json = "1"
bincode = "1"
eyre = "0.6"
sonic-rs = "*"
