[package]
name = "gitcore"
version = "0.1.0"
edition = "2021"
publish = false

[dependencies]
anyhow = "1"
chrono = "0.4"
clap = "2"
env_logger = "*"
flate2 = "1"
log = "0.4"
sha1 = "0.10"
thiserror = "1"
