[package]
name = "kinito"
version = "0.1.0"
edition = "2021"
publish = false

[dependencies]
regex = "1"
toml = "0.5"
serde = { version = "1", features = ["derive"] }
serde_json = "1"
clap = "2"
env_logger = "0.10"
log = "0.4"
zip = { version = "0.6", default-features = false, features = ["deflate"] }
