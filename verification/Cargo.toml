[package]
name = "rbfmt"
version = "0.1.0"
edition = "2021"
publish = false

[dependencies]
env_logger = "*"
getopts = "*"
ruby-prism = "*"
serde = { version = "1", features = ["derive"] }
serde_yaml = "*"
