[package]
name = "secure_protocol"
version = "0.1.0"
edition = "2021"
publish = false

[dependencies]
blake3 = "1"
chacha20poly1305 = "0.10"
hkdf = "0.12"
hmac = "0.12"
parking_lot = "0.12"
rand = "0.8"
rand_core = "0.6"
sha2 = "0.10"
sled = "0.34"
x25519-dalek = { version = "2", features = ["static_secrets"] }
