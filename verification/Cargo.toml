[package]
name = "mtga_hub"
version = "0.1.0"
edition = "2021"
publish = false

[dependencies]
regex = "1"
serde = { version = "1", features = ["derive"] }
serde_json = "1"
flate2 = "1"
rusqlite = { version = "*", features = ["bundled"] }
