[package]
name = "hecate_vm"
version = "0.1.0"
edition = "2021"
publish = false

[dependencies]
anyhow = "1"
base64 = "0.22"
clap = { version = "4", features = ["derive"] }
js-sys = "0.3"
quote = "1"
rvsim = "*"
serde = { version = "1", features = ["derive"] }
serde_json = "1"
serde-wasm-bindgen = "0.6"
sha2 = "0.10"
syn = { version = "2", features = ["full"] }
tiny_http = "0.12"
toml = "*"
tungstenite = "*"
wasm-bindgen = "0.2"
