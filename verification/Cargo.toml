[package]
name = "sixela"
version = "0.1.0"
edition = "2021"
publish = false

[dependencies]
devela = { version = "=0.22.1", features = ["std"] }
