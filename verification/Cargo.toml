[package]
name = "paper_rolls"
version = "0.1.0"
edition = "2021"
publish = false

[dependencies]
clap = { version = "*", features = ["derive"] }
rand = { version = "*", features = ["small_rng"] }
hip-runtime-sys = "*"
