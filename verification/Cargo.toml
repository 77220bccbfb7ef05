[package]
name = "forgexalith"
version = "0.1.0"
edition = "2021"
publish = false

[dependencies]
ammonia = "4"
petgraph = "0.6"
pulldown-cmark = { version = "0.12", default-features = false, features = ["html"] }
serde = { version = "1", features = ["derive"] }
serde_json = "1"
serde_yaml = "0.9"
uuid = { version = "1", features = ["v4"] }
