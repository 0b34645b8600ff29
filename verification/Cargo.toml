[package]
name = "bankex"
version = "0.1.0"
edition = "2021"
publish = false

[dependencies]
clap = "*"
csv = "*"
rust_decimal = { version = "*", features = ["serde"] }
serde = { version = "*", features = ["derive"] }
