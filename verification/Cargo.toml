[package]
name = "iqdb"
version = "0.1.0"
edition = "2021"
publish = false

[dependencies]
html5ever = "0.22"
markup5ever = "0.7"
reqwest = "0.9"
error-chain = "0.12"
