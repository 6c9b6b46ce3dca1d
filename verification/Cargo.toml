[package]
name = "block_import"
version = "0.1.0"
edition = "2021"
publish = false

[dependencies]
bech32 = "=0.2.2"
kvdb = "=0.13.0"
parking_lot = "=0.13.0"
rlp = "=0.6.1"
