[package]
name = "train_diagram"
version = "0.1.0"
edition = "2021"
publish = false

[dependencies]
anyhow = "1"
ciborium = "*"
derive_more = { version = "*", features = ["add", "add_assign"] }
multimap = "*"
petgraph = "*"
serde = { version = "1", features = ["derive"] }
typst-wasm-protocol = "*"
