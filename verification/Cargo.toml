[package]
name = "merchant_monitor"
version = "0.1.0"
edition = "2021"
publish = false

[dependencies]
time = "=0.2.27"
json = "=0.12.4"
serde = { version = "=1.0.229", features = ["derive"] }
bson = "=2.15.0"
mongodb = { version = "=2.8.2", features = ["tokio-sync"] }
reqwest = "=0.10.10"
tokio = { version = "=0.2.25", features = ["full"] }
dotenv = "=0.15.0"
