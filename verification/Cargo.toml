[package]
name = "kmp_index"
version = "0.1.0"
edition = "2021"
publish = false

[dependencies]
bincode = "1.3"
dashmap = "6"
globset = "0.4"
ignore = "0.4"
log = "0.4"
serde = { version = "1", features = ["derive", "rc"] }
sha2 = "0.10"
tokio = { version = "1", features = ["rt-multi-thread", "sync", "fs", "macros"] }
tower-lsp = "0.20"
tree-sitter = "0.22"
tree-sitter-java = "0.21"
tree-sitter-kotlin = "0.3"
tree-sitter-swift-bundled = "*"
walkdir = "2"
zip = "2"

[dev-dependencies]
tempfile = "3"
