[package]
name = "raft"
version = "0.1.0"
edition = "2021"
publish = false

[dependencies]
actix = "0.10"
serde = { version = "1", features = ["derive"] }
