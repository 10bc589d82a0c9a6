[package]
name = "autofocus"
version = "0.1.0"
edition = "2021"
publish = false

[dependencies]
clap = { version = "4", features = ["derive"] }
image = { version = "0.25", default-features = false, features = ["jpeg", "png", "webp", "gif"] }
serde_json = "1"
wasm-bindgen = "0.2"
