[package]
name = "airfile"
version = "0.1.0"
edition = "2021"
publish = false

[dependencies]
raptor-code = "*"
sha256 = "*"
rand = "*"
