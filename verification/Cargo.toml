[package]
name = "winnowcurl"
version = "0.1.0"
edition = "2021"
publish = false

[dependencies]
num = "=0.4.3"
clap = { version = "=4.6.7", features = ["derive"] }
serde = { version = "=1.0.229", features = ["derive"] }
serde_json = "=1.0.154"

[dev-dependencies]
nom = "=7.1.3"
winnow = "=0.7.15"
