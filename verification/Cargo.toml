[package]
name = "pd"
version = "0.1.0"
edition = "2021"
publish = false

[dependencies]
url = "1.7.2"
rand = "0.4.6"
futures = "0.1.31"
log = "0.3.9"
env_logger = "0.4.3"
