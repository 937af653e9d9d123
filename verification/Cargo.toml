[package]
name = "gridworld"
version = "0.1.0"
edition = "2021"
publish = false

[dependencies]
actix = "=0.13.5"
actix-web = { version = "=4.15.0", default-features = false, features = ["macros", "ws"] }
actix-web-actors = "=4.2.0"
serde = { version = "=1.0.229", features = ["derive"] }
serde_json = "=1.0.151"
