[package]
name = "sprsdiag"
version = "0.1.0"
edition = "2021"
publish = false

[dependencies]
ndarray = "0.16"
sprs = { version = "0.11", default-features = false }
