[package]
name = "carsier"
version = "0.1.0"
edition = "2021"
publish = false

[dependencies]
semver-parser = "0.7.0"
anyhow = "1"
clap = { version = "4", features = ["derive"] }
glob = "0.3"
log = "0.4"
serde = { version = "1", features = ["derive"] }
serde_json = "1"
simplelog = "*"
thiserror = "1"
toml = "*"
