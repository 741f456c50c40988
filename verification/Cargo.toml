[package]
name = "tooling"
version = "0.1.0"
edition = "2021"
publish = false

[dependencies]
regex = "*"
bossy = "*"
once-cell-regex = "*"
