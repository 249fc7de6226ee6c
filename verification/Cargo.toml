[package]
name = "depman"
version = "0.1.0"
edition = "2021"
publish = false

[dependencies]
semver = "*"
serde_json = "*"
toml_edit = "*"
toml = "*"
serde = { version = "*", features = ["derive"] }
reqwest = { version = "*", default-features = false, features = ["json"] }
tokio = { version = "*", features = ["rt-multi-thread", "macros"] }
futures = "*"
