[package]
name = "utxo"
version = "0.1.0"
edition = "2021"
publish = false

[dependencies]
parity-scale-codec = { version = "*", features = ["derive"] }
sp-core = "*"
sp-runtime = "*"
sp-std = "*"
frame-support = "*"
frame-system = "*"
serde = { version = "1", features = ["derive"] }
