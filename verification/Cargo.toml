[package]
name = "appflowy_cloud"
version = "0.1.0"
edition = "2021"
publish = false

[dependencies]
actix-web = "4"
prometheus-client = "*"
tracing = "*"
serde_json = "*"
