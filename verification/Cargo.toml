[package]
name = "yaml_tftpl_lsp"
version = "0.1.0"
edition = "2021"
publish = false

[dependencies]
serde_yaml = "*"
tokio = { version = "*", features = ["full"] }
tower-lsp = "*"
tracing = "*"
tracing-subscriber = { version = "*", features = ["env-filter"] }
