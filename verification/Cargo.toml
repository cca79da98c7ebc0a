[package]
name = "tree-sitter-graph"
version = "0.1.0"
edition = "2021"
publish = false

[dependencies]
regex = "1"
tree-sitter = "0.20.10"

[dev-dependencies]
tree-sitter-python = "0.20.4"
