[package]
name = "phy6_token_saver"
version = "0.1.0"
edition = "2021"
publish = false

[dependencies]
serde_json = "1"
