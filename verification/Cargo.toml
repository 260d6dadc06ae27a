[package]
name = "saito_core"
version = "0.1.0"
edition = "2021"
publish = false

[dependencies]
sha2 = "*"
secp256k1 = "*"
rand = "*"
data-encoding = "*"
serde = { version = "*", features = ["derive"] }
serde_json = "*"
bigint = "*"
