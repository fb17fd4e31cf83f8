[package]
name = "dataflow"
version = "0.1.0"
edition = "2021"
publish = false

[dependencies]
serde_json = "*"
csv = "*"
chrono = "*"
rust_decimal = { version = "*", features = ["maths"] }
