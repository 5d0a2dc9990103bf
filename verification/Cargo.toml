[package]
name = "codescope"
version = "0.1.0"
edition = "2021"
publish = false

[dependencies]
tree-sitter = "*"
tree-sitter-typescript = "*"
tree-sitter-javascript = "*"
blake3 = "*"
petgraph = "*"
toml = "*"
clap = { version = "*", features = ["derive"] }
serde = { version = "*", features = ["derive"] }
serde_json = "*"
walkdir = "*"
ignore = "*"
