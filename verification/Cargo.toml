[package]
name = "sg_syntax"
version = "0.1.0"
edition = "2021"
publish = false

[dependencies]
tree-sitter = "*"
tree-sitter-highlight = "*"
tree-sitter-go = "*"
serde_json = "*"
