[package]
name = "boxnovel"
version = "0.1.0"
edition = "2021"
publish = false

[dependencies]
soup = "0.5"
regex = "1"
serenity = { version = "0.9", default-features = false, features = ["builder", "cache", "client", "framework", "gateway", "http", "model", "standard_framework", "utils", "rustls_backend"] }
sqlx = { version = "0.3", default-features = false, features = ["runtime-tokio", "sqlite", "macros"] }
tokio = { version = "0.2", features = ["full"] }
reqwest = { version = "0.10", default-features = false, features = ["rustls-tls"] }
dotenv = "0.15"
