[package]
name = "vireo"
version = "0.1.0"
edition = "2021"
publish = false

[dependencies]
anyhow = "1"
clap = { version = "4", features = ["derive"] }
csv = "1"
env_logger = "0.11"
image = { version = "0.24", default-features = false, features = ["png"] }
log = "0.4"
rand = "0.8"
rand_chacha = "0.3"
serde = { version = "1", features = ["derive"] }
serde_yaml = "0.9"
