[package]
name = "hadrone"
version = "0.1.0"
edition = "2021"
publish = false

[dependencies]
serde = { version = "1", features = ["derive"] }
serde_json = "1"
tokio = { version = "1", features = ["time", "rt", "macros"] }
wasm-bindgen = "0.2"
serde-wasm-bindgen = "0.6"
