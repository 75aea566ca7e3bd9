[package]
name = "polar_store"
version = "0.1.0"
edition = "2021"
publish = false

[dependencies]
serde = { version = "1", features = ["derive"] }
serde_yaml = "*"
confy = "*"
env_logger = "*"
structopt = "*"
