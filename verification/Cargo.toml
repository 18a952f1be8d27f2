[package]
name = "backend"
version = "0.1.0"
edition = "2021"
publish = false

[dependencies]
actix-http = "*"
actix-session = { version = "*", features = ["cookie-session"] }
actix-web = "*"
env_logger = "*"
log = "*"
r2d2_redis = "*"
rmp-serde = "*"
serde = { version = "*", features = ["derive"] }
toml = "*"
