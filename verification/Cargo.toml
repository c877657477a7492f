[package]
name = "columnar_ipc"
version = "0.1.0"
edition = "2021"
publish = false

[dependencies]
memchr = "2"
percent-encoding = "2"
serde = { version = "1", features = ["derive"] }
serde_json = "1"
bytes = "1"
reqwest = { version = "0.12", default-features = false }
