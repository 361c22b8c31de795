[package]
name = "jmove"
version = "0.1.0"
edition = "2021"
publish = false

[dependencies]
tree-sitter = "0.25"
tree-sitter-java = "0.23"
tree-sitter-typescript = "0.23"
serde = { version = "1", features = ["derive"] }
serde_json = "1"
similar = "2"
clap = { version = "4", features = ["derive"] }
anyhow = "1"
ignore = "0.4"
thiserror = "2"
