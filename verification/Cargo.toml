[package]
name = "regex_decode"
version = "0.1.0"
edition = "2021"
publish = false

[dependencies]
regex = "*"
rustc-serialize = "0.3"
error-chain = { version = "0.12", default-features = false }
