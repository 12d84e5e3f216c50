[package]
name = "easylist_parser"
version = "0.1.0"
edition = "2021"
publish = false

[dependencies]
adblock = { version = "*", features = ["content-blocking"] }
serde_json = "1"
