[package]
name = "xai_grok_input_sanitize"
version = "0.1.0"
edition = "2021"
publish = false

[dependencies]
serde = { version = "1", features = ["derive"] }
thiserror = "2"
toml = "*"
toml_edit = "*"
