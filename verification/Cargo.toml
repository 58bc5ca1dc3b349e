[package]
name = "nib"
version = "0.1.0"
edition = "2021"
publish = false

[dependencies]
nucleo-matcher = "0.3"
lsp-types = "0.97"
serde = { version = "1", features = ["derive"] }
serde_json = "1"
dirs = "6"
futures = "0.3"
