[package]
name = "memos_worker"
version = "0.1.0"
edition = "2021"
publish = false

[dependencies]
base64 = "0.22"
chrono = { version = "0.4", default-features = false, features = ["std", "clock"] }
futures-channel = "0.3"
futures-util = "0.3"
hex = "0.4"
hmac = "0.12"
js-sys = "0.3"
pbkdf2 = "0.12"
serde = { version = "1", features = ["derive"] }
serde_json = "1"
sha2 = "0.10"
url = "2"
wasm-bindgen = "0.2"
wasm-bindgen-futures = "0.4"
worker = { version = "0.5", features = ["d1"] }
