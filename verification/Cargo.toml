[package]
name = "cosmwasm_schema"
version = "0.1.0"
edition = "2021"
publish = false

[dependencies]
schemars = "0.8"
syn = { version = "1", features = ["full", "printing", "extra-traits"] }
thiserror = "1"
