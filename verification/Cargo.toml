[package]
name = "fscodegen"
version = "0.1.0"
edition = "2021"
publish = false

[dependencies]
camino = "*"
ecow = "*"
itertools = "*"
regex = "*"
tracing = "*"
