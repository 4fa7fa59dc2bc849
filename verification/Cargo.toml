[package]
name = "tunl"
version = "0.1.0"
edition = "2021"
publish = false

[dependencies]
aes = "=0.8.4"
aes-gcm = "=0.10.3"
base64 = "=0.22.1"
bytes = "=1.12.1"
futures-util = "=0.3.34"
getrandom = { version = "=0.2.17", features = ["js"] }
md-5 = "=0.10.6"
pin-project-lite = "=0.2.17"
regex = "=1.13.1"
serde_json = "=1.0.154"
sha2 = "=0.10.9"
tokio = { version = "=1.54.1", features = ["io-util"] }
uuid = "=1.29.0"
wasm-bindgen-futures = "=0.4.80"
worker = "=0.5.0"
