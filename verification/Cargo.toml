[package]
name = "mcp_pricing"
version = "0.1.0"
edition = "2021"
publish = false

[dependencies]
cel-interpreter = "=0.9.1"
chrono = "=0.4.45"
uuid = { version = "=1.29.0", features = ["v4"] }
serde = { version = "=1.0.229", features = ["derive"] }
serde_json = "=1.0.154"
reqwest = { version = "=0.12.28", default-features = false, features = ["json", "rustls-tls"] }
rmcp = { version = "=3.8.0", features = ["server", "macros"] }
