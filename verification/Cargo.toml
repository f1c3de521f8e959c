[package]
name = "spartan_rs"
version = "0.1.0"
edition = "2021"
publish = false

[dependencies]
thiserror = "2"
miette = { version = "7", features = ["derive"] }
