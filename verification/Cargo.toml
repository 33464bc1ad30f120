[package]
name = "sqlformater"
version = "0.1.0"
edition = "2021"
publish = false

[dependencies]
sqlparser = "*"
serde = { version = "*", features = ["derive"] }
serde_json = "*"
rayon = "*"
