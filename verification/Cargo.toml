[package]
name = "pandora_site"
version = "0.1.0"
edition = "2021"
publish = false

[dependencies]
console_error_panic_hook = "=0.1.7"
gloo-net = "=0.3.1"
log = "=0.4.34"
wasm-logger = "=0.2.0"
web-sys = { version = "=0.3.106", features = ["Window", "Navigator"] }
ybc = "=0.4.0"
yew = { version = "=0.20.0", features = ["csr"] }
yew-hooks = "=0.2.0"
yew-router = "=0.17.0"
