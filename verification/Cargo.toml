[package]
name = "alfwin"
version = "0.1.0"
edition = "2021"
publish = false

[dependencies]
serde = { version = "1", features = ["derive"] }
serde_json = "1"
clap = "3"
dirs = "*"
regex = "1"
core-foundation = "0.9"
core-graphics = "0.22"
objc-foundation = "0.1"
objc_id = "0.1"
