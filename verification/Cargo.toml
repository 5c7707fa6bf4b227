[package]
name = "mmr_nostr"
version = "0.1.0"
edition = "2021"

[dependencies]
bitcoin_hashes = "0.12"
cloud-mmr = "*"
env_logger = "0.10"
nostr = { version = "0.21", default-features = false }
tungstenite = { version = "0.19", features = ["rustls-tls-webpki-roots"] }
