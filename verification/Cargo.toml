[package]
name = "topos"
version = "0.1.0"
edition = "2021"
publish = false

[dependencies]
regex = "=1.13.1"
tree-sitter = "=0.27.1"
tree-sitter-typescript = "=0.23.2"
tree-sitter-rust = "=0.24.2"
tree-sitter-language = "=0.1.9"
serde = { version = "=1.0.229", features = ["derive"] }
serde_json = "=1.0.154"
clap = { version = "=4.6.7", features = ["derive"] }
colored = "=3.1.1"
anyhow = "=1.0.104"
thiserror = "=2.0.21"
dotenvy = "=0.15.7"
glob = "=0.3.4"
git2 = { version = "=0.21.0", default-features = false }
tokio = { version = "=1.54.1", features = ["rt-multi-thread", "macros", "sync"] }
tracing = "=0.1.44"
tracing-subscriber = "=0.3.23"
reqwest = { version = "=0.12.28", default-features = false, features = ["json", "rustls-tls"] }
