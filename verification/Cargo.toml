[package]
name = "open_metrics_client"
version = "0.1.0"
edition = "2021"
publish = false

[dependencies]
itoa = "0.4"
dtoa = "0.4"

[dev-dependencies]
openmetrics-parser = "*"
