[package]
name = "codemut"
version = "0.1.0"
edition = "2021"
publish = false

[dependencies]
tree-sitter = "*"
tree-sitter-rust = "*"
rand = "*"
clap = { version = "*", features = ["derive"] }
walkdir = "*"
tqdm = "*"
