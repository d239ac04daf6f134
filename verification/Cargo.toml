[package]
name = "announcer"
version = "0.1.0"
edition = "2021"
publish = false

[dependencies]
cosmwasm-std = "1"
cw-storage-plus = "0.13"
cw2 = "0.13"
schemars = "0.8"
semver = "1"
serde = { version = "1", features = ["derive"] }
