[package]
name = "egm96"
version = "0.1.0"
edition = "2021"
publish = false

[dependencies]
lz4_flex = "0.11"
wasm-bindgen = "0.2"
pyo3 = "0.20"
numpy = "0.20"
ndarray = "0.15"
