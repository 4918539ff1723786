[package]
name = "stake"
version = "0.1.0"
edition = "2021"
publish = false

[dependencies]
casper-contract = { version = "=3.0.0", default-features = false }
casper-types = "=3.0.0"
