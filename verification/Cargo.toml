[package]
name = "operation_ids"
version = "0.1.0"
edition = "2021"

[dependencies]
anyhow = "1"
openapiv3 = "*"
serde_json = "1"
