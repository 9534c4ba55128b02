[package]
name = "asn1"
version = "0.1.0"
edition = "2021"
publish = false

[dependencies]
serde = { version = "1", features = ["derive"] }
serde_bytes = "0.11"

[dev-dependencies]
quickcheck = "1"
