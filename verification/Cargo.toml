[package]
name = "text_segments"
version = "0.1.0"
edition = "2021"
publish = false

[dependencies]
wasm-bindgen = "0.2"
js-sys = "0.3"
serde = "1"
serde_json = "1"
