[package]
name = "crystals"
version = "0.1.0"
edition = "2021"
publish = false

[dependencies]
rand = "0.8"
zeroize = "1"

[dev-dependencies]
sha3 = "0.10"
digest = "0.10"
