[package]
name = "perps_v1"
version = "0.1.0"
edition = "2021"
publish = false

[dependencies]
tokio = { version = "1", features = ["sync", "rt", "rt-multi-thread", "macros"] }
uuid = { version = "1", features = ["v4"] }
chrono = "0.4"
serde = { version = "1", features = ["derive"] }
serde_json = "1"
actix-web = "4"
jsonwebtoken = "9"
jwt = "0.16"
dotenv = "0.15"
tokio-tungstenite = "*"
futures-util = "0.3"
