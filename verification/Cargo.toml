[package]
name = "production_importer"
version = "0.1.0"
edition = "2021"
publish = false

[dependencies]
anyhow = "1"
chrono = "0.4"
colored = "2"
reqwest = "0.11"
rust-ini = "0.18"
serde_json = "1"
tiberius = "0.12"
tokio = { version = "1", features = ["macros", "net", "rt-multi-thread"] }
tokio-util = { version = "0.7", features = ["compat"] }
