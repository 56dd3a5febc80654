[package]
name = "shark_occurrences"
version = "0.1.0"
edition = "2021"
publish = false

[dependencies]
chrono = "=0.4.45"
polars = { version = "=0.43.1", default-features = false, features = ["csv"] }
