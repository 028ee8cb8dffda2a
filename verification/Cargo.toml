[package]
name = "codevault"
version = "0.1.0"
edition = "2021"
publish = false

[dependencies]
syntect = "*"
serde = { version = "*", features = ["derive"] }
serde_json = "*"
clap = { version = "*", features = ["derive"] }
chrono = "*"

[dev-dependencies]
regex = "*"
