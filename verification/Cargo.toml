[package]
name = "update_chat_types"
version = "0.1.0"
edition = "2021"
publish = false

[dependencies]
clap = { version = "*", features = ["derive"] }
tempfile = "*"
walkdir = "*"
