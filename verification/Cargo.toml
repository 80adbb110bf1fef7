[package]
name = "grrs"
version = "0.1.0"
edition = "2021"
publish = false

[dependencies]
anyhow = "*"
confy = "*"
crossbeam-channel = "*"
ctrlc = "*"
env_logger = "*"
indicatif = "*"
log = "*"
serde = { version = "*", features = ["derive"] }
structopt = "*"
