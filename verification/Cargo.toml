[package]
name = "spectrum_ledger"
version = "0.1.0"
edition = "2021"
publish = false

[dependencies]
async-std = "1.12"
async-trait = "0.1"
bincode = "1.3.3"
nonempty = "0.8"
rocksdb = { version = "0.19", default-features = false }
