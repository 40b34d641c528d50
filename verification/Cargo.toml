[package]
name = "chain_tx"
version = "0.1.0"
edition = "2021"
publish = false

[dependencies]
bech32 = "*"
hex = "*"
cryptoxide = "*"
ed25519-bip32 = "*"
rand_os = "*"
