[package]
name = "aspire_orchestrator"
version = "0.1.0"
edition = "2021"
publish = false

[dependencies]
fuzzy-matcher = "0.3"
tokio = { version = "1", features = ["full"] }
portable-pty = "0.8"
libc = "0.2"
