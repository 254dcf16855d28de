[package]
name = "rusty_snake"
version = "0.1.0"
edition = "2021"
publish = false

[dependencies]
console_error_panic_hook = "=0.1.7"
log = "=0.4.34"
rand = "=0.8.8"
speedy2d = { version = "=3.1.0", default-features = false, features = ["windowing"] }
wasm-bindgen = "=0.2.129"
wasm-logger = "=0.2.0"
web-sys = { version = "=0.3.106", features = ["Window", "Performance"] }
