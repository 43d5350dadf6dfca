[package]
name = "rads_lsp"
version = "0.1.0"
edition = "2021"
publish = false

[dependencies]
tower-lsp = "*"
tokio = { version = "*", features = ["full"] }
serde = { version = "*", features = ["derive"] }
serde_json = "*"
log = "*"
env_logger = "*"
