[package]
name = "pyproject-udeps"
version = "0.1.0"
edition = "2021"
publish = false

[dependencies]
toml = "=0.8.23"
anyhow = "=1.0.104"
clap = { version = "=4.6.7", features = ["derive"] }
clap-verbosity-flag = "=3.0.4"
ignore = "=0.4.34"
tracing = "=0.1.44"
tracing-subscriber = "=0.3.23"
tracing-log = "=0.2.0"
