[package]
name = "lightyear_netcode"
version = "0.1.0"
edition = "2021"
publish = false

[dependencies]
chacha20poly1305 = { version = "=0.10.1", default-features = false, features = ["alloc"] }
js-sys = "0.3"
tokio = { version = "1", default-features = false, features = ["sync"] }
tracing = { version = "0.1", default-features = false }
wasm-bindgen = "0.2"
web-sys = { version = "0.3", features = ["BinaryType", "CloseEvent", "ErrorEvent", "MessageEvent", "WebSocket"] }
