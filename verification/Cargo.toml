[package]
name = "rp"
version = "0.1.0"
edition = "2021"
publish = false

[dependencies]
chrono = "0.4"
dirs = "*"
clap = { version = "4", features = ["derive"] }
