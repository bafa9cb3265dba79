[package]
name = "bismuth"
version = "0.1.0"
edition = "2021"
publish = false

[dependencies]
rand = "0.8"
serde_yaml = "0.9"
serde = { version = "1", features = ["derive"] }
clap = { version = "4", features = ["derive"] }
toml = "0.7"
crossterm = "0.26"
regex = "1"
html-escape = "0.2"
katex = "0.4"
syntect = "5"
thiserror = "1"
