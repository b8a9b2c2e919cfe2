[package]
name = "updater"
version = "0.1.0"
edition = "2021"
publish = false

[dependencies]
serde = { version = "*", features = ["derive"] }
time = { version = "*", features = ["formatting", "parsing"] }
url = "*"
