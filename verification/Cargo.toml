[package]
name = "bittorrent_rustico"
version = "0.1.0"
edition = "2021"
publish = false

[dependencies]
chrono = "0.4"
gtk = "*"
log = "0.4"
pretty_env_logger = "*"
rand = "0.8"
sha1 = "0.10"
