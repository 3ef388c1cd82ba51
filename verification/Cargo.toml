[package]
name = "jaeger_stats"
version = "0.1.0"
edition = "2021"
publish = false

[dependencies]
regex = "1"
serde = { version = "1", features = ["derive"] }
serde_json = "1"
bincode = "1"
chrono = "0.4"
clap = { version = "4", features = ["derive"] }
thiserror = "1"
log = "0.4"
lazy_static = "1"
