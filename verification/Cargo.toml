[package]
name = "event_store_rs"
version = "0.1.0"
edition = "2021"
publish = false

[dependencies]
anyhow = "*"
aws-sdk-dynamodb = "*"
