[package]
name = "codebase_index"
version = "0.1.0"
edition = "2021"
publish = false

[dependencies]
anyhow = "*"
chonkier = "*"
chrono = "*"
futures = "*"
ignore = "*"
num_cpus = "*"
rayon = "*"
reqwest = { version = "*", default-features = false, features = ["json"] }
serde_json = "*"
tokio = { version = "*", features = ["rt-multi-thread", "sync"] }
tokio-stream = "*"
tree-sitter = "*"
tree-sitter-c = "*"
tree-sitter-cpp = "*"
tree-sitter-javascript = "*"
tree-sitter-python = "*"
tree-sitter-rust = "*"
tree-sitter-typescript = "*"
tree-sitter-zig = "*"
