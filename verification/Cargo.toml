[package]
name = "dbf_reader"
version = "0.1.0"
edition = "2021"
publish = false

[dependencies]
yore = "1"
serde = { version = "1", features = ["derive"] }
serde_json = "1"
wasm-bindgen = "0.2"
console_error_panic_hook = "0.1"
