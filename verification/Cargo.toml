[package]
name = "docgen"
version = "0.1.0"
edition = "2021"
publish = false

[dependencies]
rustpython-parser = "0.3.1"
tree-sitter = "=0.20.10"
tree-sitter-rust = "=0.20.4"
tree-sitter-javascript = "=0.20.4"
anyhow = "=1.0.104"
async-trait = "=0.1.92"
clap = { version = "=4.6.7", features = ["derive"] }
colored = "=2.2.0"
dotenv = "=0.15.0"
reqwest = { version = "=0.11.27", features = ["json"] }
serde = { version = "=1.0.229", features = ["derive"] }
serde_json = "=1.0.154"
thiserror = "=1.0.69"
tokio = { version = "=1.54.1", features = ["full"] }
