[package]
name = "tap_query"
version = "0.1.0"
edition = "2021"
publish = false

[dependencies]
regex = "*"
fuzzy-matcher = "*"
grep-regex = "*"
grep-matcher = "*"
chrono = { version = "*", features = ["serde"] }
serde = { version = "*", features = ["derive"] }
