[package]
name = "packer"
version = "0.1.0"
edition = "2021"
publish = false

[dependencies]
walkdir = "2"
glob = "0.3"
