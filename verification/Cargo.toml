[package]
name = "preprocess"
version = "0.1.0"
edition = "2021"
publish = false

[dependencies]
yaml-rust = "0.4"
glob = "0.3"
