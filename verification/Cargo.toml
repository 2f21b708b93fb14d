[package]
name = "quebrix"
version = "0.1.0"
edition = "2021"
publish = false

[dependencies]
actix-web = "4"
aes = "0.7"
base64 = "0.21"
block-modes = "0.8"
chrono = "0.4"
rand = "0.8"
serde = { version = "1", features = ["derive"] }
serde_json = "1"
