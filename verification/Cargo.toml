[package]
name = "clash_config_proxy"
version = "0.1.0"
edition = "2021"
publish = false

[dependencies]
actix-web = "4"
awc = "3"
diesel = { version = "2", features = ["sqlite"] }
dotenvy = "0.15"
serde = { version = "1", features = ["derive"] }
serde_yaml = "0.9"
