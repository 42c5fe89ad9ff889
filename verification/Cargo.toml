[package]
name = "rustscan"
version = "0.1.0"
edition = "2021"
publish = false

[dependencies]
rlimit = "*"
futures = "0.3"
log = "0.4"
env_logger = "*"
