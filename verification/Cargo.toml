[package]
name = "tnuctipun"
version = "0.1.0"
edition = "2021"
publish = false

[dependencies]
bson = "2"
num-traits = "0.2"
mongodb = "3"
tokio = { version = "1", features = ["macros", "rt-multi-thread"] }
futures = "0.3"
serde = { version = "1", features = ["derive"] }
