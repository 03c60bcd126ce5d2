[package]
name = "frost_protocol"
version = "0.1.0"
edition = "2021"
publish = false

[dependencies]
reddsa = { version = "*", features = ["frost"] }
ed25519-dalek = "2"
x25519-dalek = { version = "2", features = ["static_secrets"] }
chacha20poly1305 = "0.10"
blake3 = { version = "1", features = ["pure"] }
rand_chacha = "0.3"
rand_core = "0.6"
siphasher = "1"

[dev-dependencies]
rand = "0.8"
