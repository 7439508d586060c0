[package]
name = "user_cache"
version = "0.1.0"
edition = "2021"
publish = false

[dependencies]
actix-web = "*"
deadpool-postgres = "*"
dotenv = "*"
env_logger = "*"
log = "*"
native-tls = "*"
postgres-native-tls = "*"
serde = { version = "*", features = ["derive"] }
serde_json = "*"
tokio-postgres = { version = "*", features = ["with-uuid-1"] }
uuid = { version = "*", features = ["v4", "serde"] }
