[package]
name = "retroboard"
version = "0.1.0"
edition = "2021"
publish = false

[dependencies]
chrono = "*"
mongodb = "*"
serde = { version = "*", features = ["derive"] }
tokio = { version = "*", features = ["rt-multi-thread", "macros", "sync"] }
futures = "*"
async-trait = "*"
