[package]
name = "anda_desk"
version = "0.1.0"
edition = "2021"
publish = false

[dependencies]
candid = "=0.10.37"
ed25519-dalek = "=3.0.0"
ic_auth_types = "=0.10.5"
ic_auth_verifier = { version = "=0.10.5", features = ["envelope"] }
ic_cose_types = "=0.11.1"
rand = "=0.10.3"

[dev-dependencies]
ciborium = "=0.2.2"
sha2 = "=0.11.0"
