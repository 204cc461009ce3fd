[package]
name = "monban"
version = "0.3.0"
edition = "2021"
publish = false

[dependencies]
toml = "=0.8.23"
serde_json = "=1.0.154"
clap = { version = "=4.5.61", features = ["derive"] }
thiserror = "=1.0.69"
