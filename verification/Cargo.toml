[package]
name = "gateway_engine"
version = "0.1.0"
edition = "2021"
publish = false

[dependencies]
futures = "0.3"
pretty_env_logger = "0.5"
tokio = { version = "1", features = ["full"] }
warp = "0.3"
