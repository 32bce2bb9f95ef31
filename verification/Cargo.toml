[package]
name = "inventory_store"
version = "0.1.0"
edition = "2021"
publish = false

[dependencies]
heed = "=0.11.0"
serde = { version = "1", features = ["derive"] }
chrono = { version = "0.4", features = ["serde"] }
actix-web = "4"
actix-cors = "0.7"

[dev-dependencies]
tempfile = "3"
