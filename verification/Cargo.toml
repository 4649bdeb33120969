[package]
name = "mls_playground"
version = "0.1.0"
edition = "2021"
publish = false

[dependencies]
anyhow = "1"
axum = "0.8"
clap = { version = "4", features = ["derive"] }
csv = "1"
futures-util = "0.3"
hex = "0.4"
openmls = "*"
openmls_basic_credential = "*"
openmls_rust_crypto = "*"
rand = "0.8"
reqwest = { version = "0.12", default-features = false, features = ["json"] }
serde = { version = "1", features = ["derive"] }
serde_json = "1"
tls_codec = "0.4"
tokio = { version = "1", features = ["macros", "net", "rt-multi-thread", "sync", "time"] }
