[package]
name = "bsmeta"
version = "0.1.0"
edition = "2021"
publish = false

[dependencies]
wiggle = "=0.27.0"
wiggle-borrow = "=0.27.0"
tar = { version = "=0.4.46", default-features = false }
serde = { version = "=1.0.229", features = ["derive"] }
serde_json = "=1.0.154"
anyhow = "=1.0.104"
log = "=0.4.34"
env_logger = "=0.11.11"
dotenv = "=0.15.0"
wasmer = "=2.3.0"
async-std = "1"
chrono = { version = "0.4", features = ["serde"] }
decorum = "*"
lewton = "0.10"
reqwest = { version = "0.11", features = ["blocking"] }
sqlx = { version = "0.7", default-features = false, features = ["runtime-async-std", "sqlite"] }
zip = { version = "0.6", default-features = false, features = ["deflate"] }
