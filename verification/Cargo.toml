[package]
name = "mycitadel"
version = "0.1.0"
edition = "2021"
publish = false

[dependencies]
bitcoin = "0.26"
bip39 = "1"
base64 = "0.13"
chrono = "0.4"
miniscript = "5"
descriptor-wallet = "0.4"
lnpbp = "0.4"
strict_encoding = "1"
amplify = "3"
serde = { version = "1", features = ["derive"] }
serde_json = "1"
serde_yaml = "0.8"
toml = "0.5"
clap = { version = "4", features = ["derive"] }
colored = "2"
shellexpand = "2"
rand = "0.8"
electrum-client = { version = "*", default-features = false }
