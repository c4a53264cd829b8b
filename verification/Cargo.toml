[package]
name = "quarto-source-map"
version = "0.1.4"
edition = "2021"
publish = false

[dependencies]
serde = { version = "1", features = ["derive"] }
schemars = { version = "*", features = ["derive"] }
