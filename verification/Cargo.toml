[package]
name = "cridecoder"
version = "0.1.0"
edition = "2021"
publish = false

[dependencies]
byteorder = "1"
encoding_rs = "0.8"
hex = "0.4"
rustc-hash = "2"
serde = { version = "1", features = ["derive"] }
serde_json = "1"
thiserror = "2"
pyo3 = { version = "*", features = ["extension-module", "abi3-py38"] }

[dev-dependencies]
tempfile = "3"
