[package]
name = "proofstorm-mcp"
version = "0.1.0"
edition = "2021"
publish = false

[dependencies]
regex = "=1.13.1"
serde = { version = "=1.0.229", features = ["derive"] }
serde_json = "=1.0.154"
schemars = "=1.2.3"
rmcp = { version = "=3.8.0", default-features = false, features = ["server", "macros"] }
reqwest = { version = "0.12", default-features = false }
