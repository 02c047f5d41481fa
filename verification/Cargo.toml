[package]
name = "calculator_vault"
version = "0.1.0"
edition = "2021"
publish = false

[dependencies]
aes-gcm = "0.10"
sha2 = "0.10"
rand = "0.8"
chrono = "0.4"
dirs = "*"
open = "*"

[dev-dependencies]
serde_json = "1"
