[package]
name = "ghafmt"
version = "0.1.0"
edition = "2021"
publish = false

[dependencies]
fyaml = "*"
regex = "1"
