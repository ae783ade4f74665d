[package]
name = "stryke-spark"
version = "0.2.1"
edition = "2021"
publish = false

[dependencies]
anyhow = "1"
clap = { version = "4", features = ["derive", "env"] }
serde_json = "1"
tempfile = "3"
