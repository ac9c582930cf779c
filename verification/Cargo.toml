[package]
name = "rcal"
version = "0.1.0"
edition = "2021"
publish = false

[dependencies]
ansi_term = "0.12"
anyhow = "1"
chrono = "0.4"
clap = { version = "4", features = ["derive"] }
