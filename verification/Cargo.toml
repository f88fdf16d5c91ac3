[package]
name = "join-ai"
version = "0.1.0"
edition = "2021"
publish = false

[dependencies]
anstyle = "1"
anyhow = "1"
clap = { version = "4", features = ["derive"] }
ignore = "0.4"
toml = "0.8"
