[package]
name = "top_crates"
version = "0.1.0"
edition = "2021"
publish = false

[dependencies]
cargo = "0.58"
cargo-platform = "0.1"
git2 = "0.13"
globset = "0.4"
itertools = "0.10"
reqwest = { version = "0.11", features = ["blocking"] }
semver = "1"
serde = { version = "1", features = ["derive"] }
serde_json = "1"
toml = "0.5"
