[package]
name = "shooting_server"
version = "0.1.0"
edition = "2021"
publish = false

[dependencies]
rand = "0.9"
serde = { version = "1", features = ["derive"] }
serde_json = "1"
log = "0.4"
env_logger = "0.11"
dotenv = "0.15"
actix = "0.13"
actix-web = "4"
actix-web-actors = "4"
actix-files = "0.6"
