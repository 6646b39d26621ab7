[package]
name = "nanolike"
version = "0.1.0"
edition = "2021"
publish = false

[dependencies]
chardetng = "0.1"
crossterm = "0.28"
dirs = "5"
encoding_rs = "0.8"
serde = { version = "1", features = ["derive"] }
serde_json = "1"
