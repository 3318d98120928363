[package]
name = "qt-sources-gen"
version = "0.1.0"
edition = "2021"
publish = false

[dependencies]
sha2 = "0.10"
md-5 = "0.10"
reqwest = { version = "0.12", default-features = false, features = ["blocking", "rustls-tls"] }
clap = { version = "4", features = ["derive"] }
serde = { version = "1", features = ["derive"] }
serde_json = "1"
thiserror = "2"
tracing = "0.1"
tracing-subscriber = { version = "0.3", features = ["json", "env-filter"] }
