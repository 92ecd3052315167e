[package]
name = "clinlint"
version = "0.1.0"
edition = "2021"
publish = false

[dependencies]
dashmap = "=5.5.3"
env_logger = "=0.10.2"
log = "=0.4.34"
ropey = "=1.6.1"
rust-lapper = "=1.3.0"
serde = { version = "=1.0.229", features = ["derive"] }
tokio = { version = "=1.54.1", features = ["full"] }
tower-lsp = "=0.20.0"
tree-sitter = "=0.22.6"
tree-sitter-clingo = "=0.0.14"
