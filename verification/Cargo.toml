[package]
name = "micro_c"
version = "0.1.0"
edition = "2021"
publish = false

[dependencies]
hashbrown = "*"
wasm-bindgen = "*"
