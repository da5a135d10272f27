[package]
name = "swc2dot"
version = "0.1.0"
edition = "2021"
publish = false

[dependencies]
clap = "2"
linked-hash-map = "0.5"
yaml-rust = "0.4"
