[package]
name = "dotree"
version = "0.1.0"
edition = "2021"
publish = false

[dependencies]
anyhow = "1"
clap = { version = "4", features = ["derive"] }
console = "0.15"
dirs = "5"
pretty_env_logger = "0.5"
