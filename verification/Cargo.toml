[package]
name = "tauri_helper"
version = "0.1.0"
edition = "2021"
publish = false

[dependencies]
syn = { version = "2", features = ["full"] }
proc-macro2 = "1"
quote = "1"
serde = { version = "1", features = ["derive"] }
toml = "0.8"
rayon = "1"
