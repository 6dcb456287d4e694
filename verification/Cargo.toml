[package]
name = "kou"
version = "0.1.0"
edition = "2021"
publish = false

[dependencies]
vte = { version = "=0.13.1", default-features = false }
unicode-width = "=0.2.3"
base64 = "=0.22.1"
anyhow = "=1.0.104"
ab_glyph = "=0.2.32"
image = { version = "=0.25.10", default-features = false, features = ["png"] }
portable-pty = "=0.8.1"
tokio = { version = "=1.54.1", features = ["rt-multi-thread", "macros", "sync", "time", "io-std"] }
serde = { version = "=1.0.229", features = ["derive"] }
serde_json = "=1.0.154"
clap = { version = "=4.6.7", features = ["derive"] }
tracing-subscriber = { version = "=0.3.23", features = ["env-filter"] }
reqwest = { version = "=0.12.28", default-features = false, features = ["blocking", "rustls-tls"] }
rustls = { version = "=0.23.46", default-features = false, features = ["ring", "std"] }
