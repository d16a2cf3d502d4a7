[package]
name = "wasm_parser"
version = "0.1.0"
edition = "2021"
publish = false

[dependencies]
wasmparser = "*"
serde = { version = "*", features = ["derive"] }
serde_json = "*"
wasm-bindgen = "*"
