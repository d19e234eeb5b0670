[package]
name = "starknet_apdu_generator"
version = "0.1.0"
edition = "2021"
publish = false

[dependencies]
ethereum-types = { version = "0.14", default-features = false, features = ["std"] }
serde = { version = "1", features = ["derive"] }
serde_json = "1"
clap = { version = "4", features = ["derive"] }
