[package]
name = "tagnotes"
version = "0.1.0"
edition = "2021"
publish = false

[dependencies]
chrono = { version = "0.4", default-features = false, features = ["clock"] }
uuid = { version = "0.8", features = ["v4"] }
druid = { version = "0.7", features = ["im"] }
dotenv = "0.15"
log = "0.4"
simple_logger = "1"
