[package]
name = "hyperdb"
version = "1.0.1"
edition = "2021"
publish = false

[dependencies]
serde_json = "=1.0.151"
jsonwebtoken = { version = "=11.1.0", features = ["rust_crypto"] }
actix-web = "=4.15.0"
