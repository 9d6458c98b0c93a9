[package]
name = "decentralized_freelance_backend"
version = "0.1.0"
edition = "2021"
publish = false

[dependencies]
uuid = { version = "*", features = ["v4"] }
candid = "*"
ic-cdk = "*"
ic-cdk-macros = "*"
