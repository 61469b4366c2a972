[package]
name = "rlreplay"
version = "0.1.0"
edition = "2021"
publish = false

[dependencies]
boxcars = "0.10"
pyo3 = { version = "0.20", features = ["extension-module"] }
