[package]
name = "ccsds"
version = "0.1.0"
edition = "2021"
publish = false

[dependencies]
rs2 = "*"
crc = "*"
hifitime = "*"
serde = { version = "*", features = ["derive"] }
serde_json = "*"
spacecrafts = "=0.1.0-beta.5"
anyhow = "*"
clap = { version = "*", features = ["derive"] }
regex = "*"
