[package]
name = "zhtw_mcp"
version = "0.1.0"
edition = "2021"
publish = false

[dependencies]
anyhow = "1"
dunce = "1"
rmcp = { version = "*", default-features = false }
serde = { version = "1", features = ["derive"] }
serde_json = "1"
unicode-normalization = "0.1"
