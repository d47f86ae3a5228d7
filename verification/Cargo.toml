[package]
name = "url_shortener"
version = "0.1.0"
edition = "2021"
publish = false

[dependencies]
nanoid = "*"
actix-web = "*"
serde = { version = "*", features = ["derive"] }
