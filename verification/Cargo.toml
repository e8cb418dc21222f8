[package]
name = "wgconfgen"
version = "0.1.0"
edition = "2021"
publish = false

[dependencies]
anyhow = "=1.0.104"
base64 = "=0.23.1"
clap = { version = "=4.6.7", features = ["derive"] }
dialoguer = { version = "=0.12.0", features = ["fuzzy-select"] }
ipnet = "=2.12.2"
qr2term = "=0.3.3"
serde = { version = "=1.0.229", features = ["derive"] }
serde_yaml = "=0.9.34"
tera = "=2.4.0"
x25519-dalek = { version = "=3.0.0", features = ["static_secrets"] }
