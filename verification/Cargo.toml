[package]
name = "tls_key_resolver"
version = "0.1.0"
edition = "2021"
publish = false

[dependencies]
rustls = "0.21"
rustls-tokio-stream = "*"
tokio = { version = "1", features = ["rt", "sync", "macros", "time"] }
