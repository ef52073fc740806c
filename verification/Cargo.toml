[package]
name = "termua"
version = "0.1.0"
edition = "2021"
publish = false

[dependencies]
rand = "0.9"
semver = "1"
anyhow = "1"
serde = { version = "1", features = ["derive"] }
serde_json = "1"
atomic-write-file = "*"
rusqlite = { version = "*", features = ["bundled"] }
home = "*"
secret-service = { version = "*", features = ["rt-async-io-crypto-rust"] }
log = "0.4"
