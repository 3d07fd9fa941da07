[package]
name = "dust"
version = "0.0.1"
edition = "2021"
publish = false

[dependencies]
lalrpop-util = "*"
log = "0.4"
pretty_env_logger = "0.5"
thiserror = "1"
