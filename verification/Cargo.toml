[package]
name = "neptune"
version = "0.1.0"
edition = "2021"
publish = false

[dependencies]
fs_extra = "*"
yaml-rust = "*"
