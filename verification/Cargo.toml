[package]
name = "lodash_rs"
version = "0.1.0"
edition = "2021"
publish = false

[dependencies]
rand = "0.8"
rayon = "1"
futures = "0.3"
wasm-bindgen = "0.2"
js-sys = "0.3"
web-sys = "0.3"
