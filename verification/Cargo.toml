[package]
name = "gt_core"
version = "0.1.0"
edition = "2021"
publish = false

[dependencies]
quick-xml = "*"
zip = { version = "*", default-features = false, features = ["deflate"] }
uuid = { version = "*", features = ["v4"] }
serde = { version = "*", features = ["derive"] }
serde_json = "*"
thiserror = "*"
anyhow = "*"
clap = { version = "*", features = ["derive"] }
html-escape = "*"
tokio = { version = "*", features = ["full"] }
wasm-bindgen = "*"
