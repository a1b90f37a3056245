[package]
name = "cmake_forge"
version = "0.2.0"
edition = "2021"
publish = false

[dependencies]
clap = { version = "*", features = ["derive"] }

[dev-dependencies]
serde_json = "*"
