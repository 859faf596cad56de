[package]
name = "testify"
version = "0.1.0"
edition = "2021"
publish = false

[dependencies]
glob = "*"
colored = "*"
serde = { version = "*", features = ["derive"] }
serde_json = "*"
clap = { version = "*", features = ["derive"] }
