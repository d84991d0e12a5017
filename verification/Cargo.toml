[package]
name = "fae"
version = "0.1.0"
edition = "2021"

[dependencies]
dashmap = "*"
ansi_term = "*"
serde = { version = "*", features = ["derive"] }
serde_json = "*"
toml = "*"
which = "*"
