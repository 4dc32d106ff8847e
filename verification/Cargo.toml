[package]
name = "omarchy-plugin-bridge"
version = "0.1.0"
edition = "2021"
publish = false

[dependencies]
anyhow = "1"
atomicwrites = "0.4"
clap = { version = "4", features = ["derive"] }
dialoguer = "0.11"
dirs = "5"
semver = "1"
serde = { version = "1", features = ["derive"] }
serde_json = { version = "1", features = ["preserve_order"] }
toml = "0.8"
walkdir = "2"
which = "6"
