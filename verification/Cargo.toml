[package]
name = "apitoolchain"
version = "0.1.0"
edition = "2021"
publish = false

[dependencies]
clap = "=4.6.7"
serde_json = { version = "=1.0.154", features = ["preserve_order"] }
wasmtime = "=46.0.3"
wasmtime-wasi = "=46.0.3"
zstd = "=0.13.4"

[dev-dependencies]
wat = "=1.263.0"
