[package]
name = "argc_parser"
version = "0.1.0"
edition = "2021"

[dependencies]
anyhow = "1"

[dev-dependencies]
nom = "7"
