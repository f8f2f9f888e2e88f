[package]
name = "stubnet"
version = "0.1.0"
edition = "2021"
publish = false

[dependencies]
starsig = "=0.2.1"
merlin = "=1.3.0"
curve25519-dalek = "=1.2.6"
rand = "=0.6.5"
serde = "=1.0.229"
serde_json = "=1.0.151"

[dev-dependencies]
