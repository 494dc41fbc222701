[package]
name = "osprey"
version = "0.1.0"
edition = "2021"
publish = false

[dependencies]
sha2 = "*"
postgres = "*"
clap = { version = "*", features = ["derive"] }
