[package]
name = "primality"
version = "0.1.0"
edition = "2021"
publish = false

[dependencies]
clap = { version = "4", features = ["derive"] }
env_logger = "*"
indicatif = "*"
indicatif-log-bridge = "*"
log = "*"
num = "*"
rayon = "*"
scope-functions = "*"
