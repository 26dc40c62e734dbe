[package]
name = "typo_eq"
version = "0.1.0"
edition = "2021"
publish = false

[dependencies]
quick-xml = "0.31"
rand = "0.8"
regex = "1"
chrono = { version = "0.4", default-features = false, features = ["clock"] }
crossterm = "0.27"
