[package]
name = "winxmerge"
version = "0.1.0"
edition = "2021"
publish = false

[dependencies]
similar = "2"
regex = "1"
encoding_rs = "0.8"
chardetng = "0.1"
calamine = "*"
zip = { version = "*", default-features = false }
image = { version = "0.25", default-features = false, features = ["png", "jpeg", "gif", "bmp", "webp", "tiff", "ico"] }
roxmltree = "*"
rust_xlsxwriter = "*"
tree-sitter-highlight = "*"
tree-sitter-rust = "*"
tree-sitter-javascript = "*"
tree-sitter-python = "*"
tree-sitter-json = "*"
tree-sitter-c = "*"
