[package]
name = "combat_server"
version = "0.1.0"
edition = "2021"
publish = false

[dependencies]
actix = "0.13"
actix-web = "4"
actix-web-actors = "4.3"
uuid = { version = "1", features = ["serde", "v4"] }

[dev-dependencies]
serde_json = "1"
