[package]
name = "kingraph"
version = "0.1.0"
edition = "2021"
publish = false

[dependencies]
petgraph = "0.6"
itertools = "*"
uuid = { version = "*", features = ["v4"] }
dot = "*"
serde = { version = "*", features = ["derive"] }
serde_json = "*"
wasm-bindgen = "*"
anyhow = "*"
thiserror = "*"
tracing = "*"
