[package]
name = "estacoes_manager"
version = "0.1.0"
edition = "2021"
publish = false

[dependencies]
indexmap = "2"
serde = { version = "1", features = ["derive"] }
serde_json = "1"
csv = "1"
thiserror = "1"
chrono = "0.4"
clap = { version = "4", features = ["derive"] }
colored = "2"
tracing = "0.1"
tracing-subscriber = { version = "0.3", features = ["env-filter"] }
