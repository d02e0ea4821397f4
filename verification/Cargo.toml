[package]
name = "voxelkloud-wasm-codecs"
version = "0.1.0"
edition = "2021"
publish = false

[dependencies]
laz = { version = "0.13.0", default-features = false }
wasm-bindgen = "0.2"
