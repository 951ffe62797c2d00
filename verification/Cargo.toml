[package]
name = "match_tree"
version = "0.1.0"
edition = "2021"
publish = false

[dev-dependencies]
tree-sitter = "*"
tree-sitter-typescript = "*"
