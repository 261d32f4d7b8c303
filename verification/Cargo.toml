[package]
name = "agentshield"
version = "0.1.0"
edition = "2021"
publish = false

[dependencies]
base64 = "0.22"
crc32fast = "1"
ed25519-dalek = { version = "2", features = ["rand_core"] }
hex = "0.4"
lazy_static = "1"
pyo3 = { version = "0.22", features = ["abi3-py38"] }
rand = "0.8"
regex = "1"
rsa = "0.9"
serde_json = "1"
sha2 = { version = "0.10", features = ["oid"] }
