[package]
name = "roam_tui"
version = "0.1.0"
edition = "2021"
publish = false

[dependencies]
chrono = "0.4"
crossterm = { version = "0.28", features = ["event-stream"] }
directories = "*"
figment = { version = "0.10", features = ["toml", "env"] }
futures = "0.3"
ratatui = "0.29"
reqwest = { version = "0.12", default-features = false, features = ["json", "rustls-tls"] }
serde = { version = "1", features = ["derive"] }
serde_json = "1"
tokio = { version = "1", features = ["rt-multi-thread", "macros", "sync", "time"] }
toml = "*"
tree-sitter = "*"
tree-sitter-highlight = "*"
tree-sitter-bash = "*"
tree-sitter-c = "*"
tree-sitter-css = "*"
tree-sitter-go = "*"
tree-sitter-html = "*"
tree-sitter-javascript = "*"
tree-sitter-json = "*"
tree-sitter-md = "*"
tree-sitter-python = "*"
tree-sitter-rust = "*"
tree-sitter-toml-ng = "*"
tree-sitter-typescript = "*"
tree-sitter-yaml = "*"
