[package]
name = "zek"
version = "0.1.0"
edition = "2021"
publish = false

[dependencies]
pyo3 = { version = "0.20", features = ["auto-initialize"] }
reqwest = { version = "*", default-features = false, features = ["blocking"] }
dirs = "*"
log = "*"
