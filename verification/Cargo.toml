[package]
name = "iceberg_actions"
version = "0.1.0"
edition = "2021"
publish = false

[dependencies]
async-trait = "0.1"
futures = "0.3"
parquet = { version = "*", default-features = false }
uuid = { version = "1", features = ["v7"] }
