[package]
name = "wubrag"
version = "0.1.0"
edition = "2021"
publish = false

[dependencies]
sha2 = "0.10"
tree-sitter = "0.25"
tree-sitter-rust = "*"
tree-sitter-cpp = "*"
tree-sitter-c = "*"
tree-sitter-javascript = "*"
tree-sitter-python = "*"
tree-sitter-cuda = "*"
jwalk = "*"
rayon = "*"
hnsw_rs = "*"
