[package]
name = "rs_bundle_decode"
version = "0.1.0"
edition = "2021"
publish = false

[dependencies]
hex = "=0.4.3"
serde = { version = "=1.0.229", features = ["derive"] }
serde_json = "=1.0.151"
wasm-bindgen = "=0.2.129"
