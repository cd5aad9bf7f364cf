[package]
name = "monodeps"
version = "0.1.0"
edition = "2021"
publish = false

[dependencies]
anyhow = "1"
env_logger = "*"
getopts = "0.2"
log = "0.4"
path-clean = "1"
regex = "1"
serde = { version = "1", features = ["derive"] }
serde_json = "1"
sxd-document = "0.3"
sxd-xpath = "0.4"
walkdir = "2"
yaml-rust = "0.4"
