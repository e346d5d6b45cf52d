[package]
name = "route_group"
version = "0.1.0"
edition = "2021"
publish = false

[dependencies]
actix-http = { version = "=0.1.5", default-features = false }
actix-router = "=0.1.5"
actix-service = "=0.3.6"
chrono = "=0.4.19"
futures = "=0.1.31"
