[package]
name = "xplode"
version = "0.1.0"
edition = "2021"
publish = false

[dependencies]
getrandom = { version = "=0.2.17", features = ["js"] }
rand = "=0.8.8"
rand_chacha = "=0.3.1"
wasm-bindgen = "=0.2.129"
wee_alloc = "=0.4.5"
