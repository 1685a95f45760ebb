[package]
name = "pallet-balance-game"
version = "0.1.0"
edition = "2021"
publish = false

[dependencies]
frame-support = "=38.2.0"
frame-system = "=38.0.0"
pallet-balances = "=39.0.1"
sp-runtime = "=39.0.5"
parity-scale-codec = { version = "3.6.12", features = ["derive"] }
scale-info = { version = "2.11.6", features = ["derive"] }
