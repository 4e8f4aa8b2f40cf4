[package]
name = "api_dto"
version = "0.1.0"
edition = "2021"
publish = false

[dependencies]
httpstatus = "*"
chrono = "*"
serde = { version = "*", features = ["derive"] }
serde_json = "*"
