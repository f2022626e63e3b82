[package]
name = "rustnett"
version = "0.1.0"
edition = "2021"
publish = false

[dependencies]
serde = { version = "*", features = ["derive"] }
serde_json = "*"
ed25519-dalek = "*"
anyhow = "*"

[dev-dependencies]
parity-scale-codec = "*"
