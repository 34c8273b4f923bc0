[package]
name = "plem"
version = "0.1.0"
edition = "2021"
publish = false

[dependencies]
csv = "1"
docopt = "1"
serde = { version = "1", features = ["derive"] }
log = "0.4"
pretty_env_logger = "*"
plotters = "*"
failure = "0.1"
common_failures = "*"
