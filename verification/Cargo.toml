[package]
name = "cryptolabs"
version = "0.1.0"
edition = "2021"
publish = false

[dependencies]
rand = "0.7"

[dev-dependencies]
streebog = "0.10"
digest = "0.10"
