[package]
name = "iroh_metrics"
version = "0.1.0"
edition = "2021"
publish = false

[dependencies]
serde = { version = "1", features = ["derive"] }
postcard = { version = "1", features = ["use-std"] }
erased_set = "*"

[dev-dependencies]
prometheus-parse = "*"
