[package]
name = "bank_record_converter"
version = "0.1.0"
edition = "2021"
publish = false

[dependencies]
csv = "1"
enum-display = "*"
serde = { version = "1", features = ["derive"] }
thiserror = "1"
