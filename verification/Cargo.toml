[package]
name = "elastic_stream"
version = "0.1.0"
edition = "2021"
publish = false

[dependencies]
crc = "=3.4.0"
tokio = { version = "=1.54.1", default-features = false, features = ["sync"] }
prometheus = { version = "=0.13.4", default-features = false }
core_affinity = "=0.8.3"

[dev-dependencies]
bytes = "=1.12.1"
