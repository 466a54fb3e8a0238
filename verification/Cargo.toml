[package]
name = "codix"
version = "0.1.0"
edition = "2021"
publish = false

[dependencies]
anyhow = "1"
clap = { version = "4", features = ["derive"] }
glob-match = "*"
hex = "*"
pathdiff = "*"
rusqlite = { version = "*", features = ["bundled"] }
serde = { version = "1", features = ["derive"] }
serde_json = "1"
sha2 = "*"
tree-sitter = "*"
tree-sitter-go = "*"
tree-sitter-java = "*"
tree-sitter-python = "*"
tree-sitter-rust = "*"
tree-sitter-typescript = "*"
walkdir = "*"

[dev-dependencies]
tempfile = "*"
