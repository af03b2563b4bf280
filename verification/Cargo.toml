[package]
name = "analwave"
version = "0.1.0"
edition = "2021"
publish = false

[dependencies]
aus = "*"
clap = { version = "4", features = ["derive"] }
ebur128 = "*"
png = "*"
serde = { version = "1", features = ["derive"] }
serde_json = "1"
wavers = "*"
