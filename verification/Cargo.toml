[package]
name = "nacos_naming_listener"
version = "0.1.0"
edition = "2021"
publish = false

[dependencies]
actix = "0.13"
inner-mem-cache = "*"
log = "0.4"
serde = { version = "1", features = ["derive"] }
serde_json = "1"
tokio = { version = "1", features = ["sync"] }
