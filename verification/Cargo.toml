[package]
name = "stronghold_session"
version = "0.1.0"
edition = "2021"
publish = false

[dependencies]
iota_stronghold = "=2.1.0"
iota-crypto = { version = "=0.23.2", features = ["pbkdf2"] }
zeroize = "=1.9.1"
