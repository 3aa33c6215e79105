[package]
name = "archaeological_assistant"
version = "0.1.0"
edition = "2021"
publish = false

[dependencies]
umya-spreadsheet = "*"
ciborium = "*"
serde = { version = "*", features = ["derive"] }
