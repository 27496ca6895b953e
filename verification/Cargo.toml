[package]
name = "ts_query_ls"
version = "0.1.0"
edition = "2021"
publish = false

[dependencies]
ropey = { version = "=1.6.1", default-features = false }
tree-sitter = "=0.20.10"
tree-sitter-query = "=0.1.0"
dissimilar = "=1.0.11"
dashmap = "=6.2.1"
streaming-iterator = "=0.1.9"
tower-lsp = "=0.20.0"
tokio = { version = "=1.53.2", features = ["full"] }
futures = "=0.3.34"
anstyle = "=1.0.14"
libloading = "=0.9.0"
serde = { version = "=1.0.229", features = ["derive"] }
serde_json = "=1.0.151"
log = "=0.4.34"
env_logger = "=0.11.11"
regex = "=1.13.1"
