[package]
name = "dataset"
version = "0.1.0"
edition = "2021"
publish = false

[dependencies]
plotly = { version = "*", default-features = false }
pyo3 = { version = "*", features = ["auto-initialize"] }
rand = "*"

[dev-dependencies]
crossbeam-channel = "*"
flume = "*"
