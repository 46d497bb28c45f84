[package]
name = "stable_registry"
version = "0.1.0"
edition = "2021"

[dependencies]
ic-stable-structures = "*"
regex = "*"
candid = "*"
ic-cdk = "*"
serde = { version = "*", features = ["derive"] }
