[package]
name = "chat_relay"
version = "0.1.0"
edition = "2021"
publish = false

[dependencies]
actix = "=0.10.0"
actix-http = "=2.2.2"
actix-rt = "=1.1.1"
actix-web = "=3.3.3"
actix-web-actors = "=3.0.0"
uuid = { version = "=0.8.2", features = ["v4"] }
