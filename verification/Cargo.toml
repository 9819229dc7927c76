[package]
name = "btc_tools"
version = "1.0.0"
edition = "2021"
publish = false

[dependencies]
anyhow = "1"
bip39 = "2"
bitcoin = { version = "0.31", features = ["rand-std"] }
clap = { version = "4", features = ["derive"] }
colored = "2"
dialoguer = "0.11"
hex = "0.4"
rand = "0.8"
