[package]
name = "wzlib-rs"
version = "0.1.0"
edition = "2021"
publish = false

[dependencies]
aes = "0.8"
base64 = "0.22"
flate2 = "1"
png = "0.17"
pyo3 = "0.23"
quick-xml = "*"
