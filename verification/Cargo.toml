[package]
name = "semantic_edit_mcp"
version = "0.1.0"
edition = "2021"
publish = false

[dependencies]
tree-sitter = "=0.27.1"
tree-sitter-rust = "=0.24.2"
tree-sitter-python = "=0.25.0"
tree-sitter-json = "=0.24.8"
tree-sitter-toml-ng = "=0.7.0"
tree-sitter-javascript = "=0.25.0"
tree-sitter-typescript = "=0.23.2"
tree-sitter-md = "=0.5.4"
diffy = "=0.5.2"
taplo = "=0.14.0"
serde_json = "=1.0.154"
jsonformat = "=2.1.0"
ropey = "=1.6.1"
serde = { version = "=1.0.229", features = ["derive"] }
schemars = "=1.2.3"
clap = { version = "=4.6.7", features = ["derive"] }
strum = { version = "=0.28.0", features = ["derive"] }
anyhow = "=1.0.104"
log = "=0.4.35"
dirs = "=7.0.0"
shellexpand = "=3.1.2"
mcplease = "=0.5.0"
enum-map = "=3.1.0"
fieldwork = "=0.5.5"
futures-lite = "=2.6.1"
