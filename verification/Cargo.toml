[package]
name = "regex_renamer"
version = "0.1.0"
edition = "2021"
publish = false

[dependencies]
regex = "*"
walkdir = "*"
tracing = "*"
tracing-subscriber = { version = "*", features = ["env-filter"] }
