[package]
name = "nrtm4_validator"
version = "0.1.0"
edition = "2021"
publish = false

[dependencies]
anyhow = "*"
base64 = "*"
clap = { version = "*", features = ["derive"] }
ed25519-dalek = "*"
flate2 = "*"
josekit = "*"
pem = "*"
reqwest = "*"
sha256 = "*"
tokio = { version = "*", features = ["rt-multi-thread", "macros"] }
url = "*"
