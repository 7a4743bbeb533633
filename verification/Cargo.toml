[package]
name = "tax_distributor"
version = "0.1.0"
edition = "2021"
publish = false

[dependencies]
primitive-types = { version = "0.9", default-features = false }
secret-cosmwasm-std = "0.10"
secret-cosmwasm-storage = "0.10"
secret-toolkit = { version = "0.2", default-features = false, features = ["storage"] }
schemars = "0.7"
serde = { version = "1.0", default-features = false, features = ["derive"] }
