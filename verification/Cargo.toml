[package]
name = "lantern_crypto"
version = "0.1.0"
edition = "2021"
publish = false

[dependencies]
blake3 = { version = "1", default-features = false, features = ["pure"] }
chacha20poly1305 = { version = "0.10", default-features = false }
ed25519-dalek = { version = "2", default-features = false, features = ["fast", "zeroize"] }
subtle = { version = "2", default-features = false }
zeroize = { version = "1", default-features = false }
