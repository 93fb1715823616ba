[package]
name = "pmd"
version = "0.1.0"
edition = "2021"
publish = false

[dependencies]
serde_yaml = "0.9"
anyhow = "1"
color-print = "0.3"
