[package]
name = "trellis"
version = "0.1.0"
edition = "2021"
publish = false

[dependencies]
blake3 = "1"
serde = { version = "1", features = ["derive"] }
serde_json = "1"
scip = "*"
tree-sitter = "0.24"
tree-sitter-python = "0.23"
