[package]
name = "bulletin_records"
version = "0.1.0"
edition = "2021"
publish = false

[dependencies]
pdf-extract = "*"
serde = { version = "*", features = ["derive"] }
serde_json = "*"
