[package]
name = "influxdb"
version = "0.1.0"
edition = "2021"
publish = false

[dependencies]
futures = "0.1"
hyper = "0.11"
itertools = "0.6"
quick-error = "1"
quote = "0.3"
serde = { version = "1", features = ["derive"] }
serde_json = "1"
syn = "0.11"
tokio-core = "0.1"
