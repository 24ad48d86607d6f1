[package]
name = "grid_drop"
version = "0.1.0"
edition = "2021"
publish = false

[dependencies]
rand = "0.8"
actix-web = "4"
actix-cors = "0.6"
mongodb = "2"
bson = "2"
tokio = "1"
tokio-stream = "0.1"
serde = { version = "1", features = ["derive"] }
serde_json = "1"
