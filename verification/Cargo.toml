[package]
name = "exacting"
version = "0.1.0"
edition = "2021"
publish = false

[dependencies]
ijson = "*"
pyo3 = { version = "0.25", features = ["extension-module"] }
serde_json = "1"
serde_json5 = "*"
