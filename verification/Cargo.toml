[package]
name = "vicuno"
version = "0.1.0"
edition = "2021"
publish = false

[dependencies]
env_logger = "*"
itertools = "*"
log = "*"
metaflac = "*"
structopt = "*"
thiserror = "*"
walkdir = "*"
