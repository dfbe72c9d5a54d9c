[package]
name = "binary_conversions"
version = "0.1.0"
edition = "2021"

[dependencies]
clap = { version = "4", features = ["cargo"] }
