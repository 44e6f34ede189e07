[package]
name = "zkcli"
version = "0.1.0"
edition = "2021"
publish = false

[dependencies]
anstyle = "*"
atty = "*"
clap = { version = "*", features = ["derive"] }
colored = "*"
env_logger = "*"
log = "*"
miette = "*"
zookeeper = "*"
