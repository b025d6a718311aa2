[package]
name = "mweb"
version = "0.1.0"
edition = "2021"
publish = false

[dependencies]
http = "0.2"
rustls = "0.19"
log = "0.4"
env_logger = "0.9"
