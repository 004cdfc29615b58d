[package]
name = "mint_client"
version = "0.1.0"
edition = "2021"
publish = false

[dependencies]
ed25519-dalek = "2"
sha2 = "0.10"
rand = "0.8"
pem = "1"
clap = { version = "4", features = ["derive"] }
