[package]
name = "backtest"
version = "0.1.0"
edition = "2021"
publish = false

[dependencies]
anyhow = "1"
bincode = "1.3"
chrono = { version = "0.4", features = ["serde"] }
num_cpus = "1"
pyo3 = { version = "0.22", features = ["abi3-py38"] }
rand = "0.8"
rayon = "1"
rustc-hash = "2"
serde = { version = "1", features = ["derive"] }
serde_json = "1"
tokio = { version = "1", features = ["rt", "time"] }
uuid = { version = "1", features = ["v4", "serde"] }
