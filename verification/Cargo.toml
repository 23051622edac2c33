[package]
name = "bamboo_core"
version = "0.1.0"
edition = "2021"
publish = false

[dependencies]
arrayvec = "=0.7.8"
blake3 = { version = "=1.8.7", default-features = false, features = ["pure"] }
ed25519-dalek = "=1.0.1"
hex = "=0.4.3"
rand = "=0.7.3"
serde = { version = "=1.0.229", features = ["derive"] }
serde_json = "=1.0.154"
varu64 = "=0.7.0"

[dev-dependencies]
lipmaa-link = "=0.2.2"
yasmf-hash = "=0.1.1"
