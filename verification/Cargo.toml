[package]
name = "minsc"
version = "0.1.0"
edition = "2021"
publish = false

[dependencies]
miniscript = { version = "*", features = ["compiler"] }
