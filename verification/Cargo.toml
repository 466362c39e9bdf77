[package]
name = "csvtool"
version = "0.1.0"
edition = "2021"
publish = false

[dependencies]
csv = "*"
clap = { version = "*", features = ["derive"] }
