[package]
name = "can2040_rs"
version = "0.1.0"
edition = "2021"
publish = false
