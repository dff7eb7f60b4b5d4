[package]
name = "norma"
version = "0.1.0"
edition = "2021"
publish = false

[dependencies]
num-bigint = "=0.4.8"
num-traits = "=0.2.19"
indexmap = "=1.9.3"
serde = { version = "=1.0.229", features = ["derive"] }
wasm-bindgen = { version = "=0.2.130", features = ["serde-serialize"] }
console_error_panic_hook = "=0.1.7"
