[package]
name = "dev_fixtures"
version = "0.9.2"
edition = "2021"
publish = false

[dependencies]
dev-report = "0.9"
tempfile = "3"
