[package]
name = "termplot"
version = "0.1.0"
edition = "2021"
publish = false

[dependencies]
drawille = "0.3.0"

[dev-dependencies]
rand = "0.8.5"
