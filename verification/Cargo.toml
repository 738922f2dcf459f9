[package]
name = "commit_lint"
version = "0.1.0"
edition = "2021"
publish = false

[dependencies]
prettytable-rs = { version = "0.10", default-features = false }
