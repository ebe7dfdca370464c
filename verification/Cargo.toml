[package]
name = "fuzzy-finder"
version = "0.1.0"
edition = "2021"
publish = false

[dependencies]
anyhow = "1"
async-trait = "0.1"
crossterm = { version = "0.22", features = ["event-stream"] }
futures = { version = "0.3", features = ["thread-pool"] }
futures-util = "0.3"
fuzzy-matcher = "0.3"
