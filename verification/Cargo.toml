[package]
name = "manifest_orders"
version = "0.1.0"
edition = "2021"
publish = false

[dependencies]
toml = "*"
actix-web = "4"
serde = { version = "1", features = ["derive"] }
