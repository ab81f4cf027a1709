[package]
name = "wasm_instrument"
version = "0.1.0"
edition = "2021"
publish = false

[dependencies]
wasmparser = "0.100.0"
wasm-encoder = "0.23.0"
