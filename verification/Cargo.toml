[package]
name = "governance"
version = "0.1.0"
edition = "2021"
publish = false

[dependencies]
candid = "*"
sha2 = "*"
serde = { version = "*", features = ["derive"] }
serde_bytes = "*"
serde_json = "*"
ic-cdk = "*"
ic-cdk-macros = "*"
