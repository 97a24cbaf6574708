[package]
name = "typid"
version = "1.0.0"
edition = "2021"
publish = false

[dependencies]
uuid = { version = "*", features = ["v4"] }
serde = { version = "*", features = ["derive"] }

[dev-dependencies]
serde_json = "*"
