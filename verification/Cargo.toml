[package]
name = "sgrep"
version = "0.1.0"
edition = "2021"

[dependencies]
colored = "*"
anyhow = "*"
atty = "*"
clap = { version = "*", features = ["derive"] }
