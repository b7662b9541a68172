[package]
name = "dottor"
version = "0.1.0"
edition = "2021"
publish = false

[dependencies]
globset = "*"
similar = "*"
shellexpand = "*"
clap = "*"
serde = { version = "*", features = ["derive"] }
toml = "*"
git2 = { version = "*", default-features = false }
walkdir = "*"
