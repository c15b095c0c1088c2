[package]
name = "slow_query_converter"
version = "0.1.0"
edition = "2021"
publish = false

[dependencies]
clap = { version = "=4.6.7", features = ["derive"] }
csv = "=1.4.0"

[dev-dependencies]
chrono = "0.4"
regex = "1"
