[package]
name = "baryon"
version = "0.1.0"
edition = "2021"
publish = false

[dependencies]
semver = "1"
clap = { version = "4", features = ["derive"] }
miette = "7"
reqwest = { version = "0.12", default-features = false }
serde = { version = "1", features = ["derive"] }
serde_json = "1"
serde_yaml = "0.9"
thiserror = "1"
tokio = { version = "1", features = ["full"] }
