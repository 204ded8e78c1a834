[package]
name = "topo"
version = "0.1.0"
edition = "2021"
publish = false

[dependencies]
rand = "=0.10.3"
uuid = { version = "=1.29.0", features = ["v4"] }
actix-web = "=4.18.1"
actix-ws = "=0.4.0"
actix-cors = "=0.7.2"
tokio = { version = "=1.54.1", features = ["full"] }
tokio-util = "=0.7.20"
serde = { version = "=1.0.229", features = ["derive"] }
serde_json = "=1.0.154"
env_logger = "=0.11.11"
log = "=0.4.35"
futures-util = "=0.3.34"
cargo-smith = "=0.4.0"
mongodb = "=3.9.1"
dotenvy = "=0.15.7"
jsonwebtoken = "=9.3.1"
