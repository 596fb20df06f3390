[package]
name = "intersections"
version = "0.1.0"
edition = "2021"
publish = false

[dependencies]
wasm-bindgen = "0.2"
serde-wasm-bindgen = "0.6"
