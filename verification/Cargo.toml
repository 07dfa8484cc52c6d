[package]
name = "docpkg"
version = "0.1.0"
edition = "2021"
publish = false

[dependencies]
clap = "4"
log = "0.4"
pretty_env_logger = "0.4"
regex = "1"
relative-path = "1"
serde = { version = "1", features = ["derive"] }
serde_derive = "1"
toml = "0.5"
