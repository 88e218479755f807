[package]
name = "luminal_hlo"
version = "0.1.0"
edition = "2021"
publish = false

[dependencies]
luminal = "*"
anyhow = "1"
