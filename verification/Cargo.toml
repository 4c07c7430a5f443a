[package]
name = "pep_contract"
version = "0.1.0"
edition = "2021"
publish = false

[dependencies]
cosmwasm-std = { version = "=2.3.5", features = ["cosmwasm_2_0"] }
cw-storage-plus = "=2.0.0"
prost = "=0.13.5"
schemars = "=0.8.22"
serde = { version = "=1.0.229", features = ["derive"] }
