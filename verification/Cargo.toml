[package]
name = "tilemark"
version = "0.1.0"
edition = "2021"
publish = false

[dependencies]
rand = "*"
noise = "*"
image = "*"
serde = { version = "*", features = ["derive"] }
serde_json = "*"
