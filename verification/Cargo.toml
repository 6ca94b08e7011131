[package]
name = "dg"
version = "0.1.0"
edition = "2021"
publish = false

[dependencies]
half = "=2.7.1"
serde = { version = "=1.0.229", features = ["derive"] }
serde_json = "=1.0.154"
serde_yaml_ng = "*"
toml = "*"
thiserror = "=2.0.21"
anyhow = "=1.0.104"
clap = { version = "=4.6.7", features = ["derive"] }
