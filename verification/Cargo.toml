[package]
name = "saferm"
version = "0.1.0"
edition = "2021"
publish = false

[dependencies]
trash = "*"
chrono = "*"
clap = { version = "*", features = ["derive"] }
dialoguer = "*"
dirs = "*"

[dev-dependencies]
tempfile = "*"
