[package]
name = "person_codec"
version = "0.1.0"
edition = "2021"
publish = false

[dependencies]
rand = "0.9"
pyo3 = { version = "0.25", features = ["auto-initialize"] }
anyhow = "1"
