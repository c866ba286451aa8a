[package]
name = "mentat"
version = "0.1.0"
edition = "2021"
publish = false

[dependencies]
actix-web = "4"
rusqlite = { version = "*", features = ["bundled"] }
uuid = { version = "*", features = ["v4"] }
serde = { version = "1", features = ["derive"] }
serde_json = "1"
