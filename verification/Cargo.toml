[package]
name = "p256"
version = "0.1.0"
edition = "2021"
publish = false

[dependencies]
ecdsa = { version = "0.16", default-features = false }
elliptic-curve = { version = "0.13", default-features = false }
sec1 = "0.7"
sha2 = { version = "0.10", default-features = false }
signature = { version = "2", features = ["digest"] }
