[package]
name = "replicache_client"
version = "0.1.0"
edition = "2021"
publish = false

[dependencies]
nanoserde = "0.1"
flatbuffers = "0.8"
async-std = { version = "1", features = ["unstable"] }
wasm-bindgen = "0.2"
wasm-bindgen-futures = "0.4"
js-sys = "0.3"
web-sys = { version = "0.3", features = ["console"] }
console_log = "0.2"
console_error_panic_hook = "0.1"
log = "0.4"
lazy_static = "1"
wee_alloc = "0.4"
