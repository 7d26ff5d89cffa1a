[package]
name = "escrow_ledger"
version = "0.1.0"
edition = "2021"
publish = false

[dependencies]
ic-stable-structures = "*"
candid = "*"
ic-cdk = "*"
ic-cdk-macros = "*"
serde = "*"
