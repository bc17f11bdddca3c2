[package]
name = "cargo_minify"
version = "0.1.0"
edition = "2021"
publish = false

[dependencies]
glob-match = "*"
gumdrop = "*"
