[package]
name = "maars"
version = "0.1.0"
edition = "2021"
publish = false

[dependencies]
sled = "0.34"
serde_json = "1"
serde = { version = "1", features = ["derive"] }
chrono = { version = "0.4", default-features = false, features = ["clock"] }
actix-web = { version = "4", default-features = false, features = ["macros"] }
lazy_static = "1"
strum = { version = "0.26", features = ["derive"] }
tracing = "0.1"
tracing-subscriber = "0.3"
