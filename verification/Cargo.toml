[package]
name = "skyward"
version = "0.1.0"
edition = "2021"
publish = false

[dependencies]
near-contract-standards = "=5.29.1"
near-sdk = { version = "=5.29.1", features = ["legacy", "non-contract-usage"] }
primitive-types = "=0.12.2"
