[package]
name = "crosschain"
version = "0.1.0"
edition = "2021"
publish = false

[dependencies]
anchor-lang = "0.30.1"
solana-program = "1.18"
sha2 = "0.10"
hex = "0.4"
