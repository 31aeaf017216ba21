[package]
name = "mapanote"
version = "0.1.0"
edition = "2021"
publish = false

[dependencies]
anyhow = "1"
chrono = "0.4"
once_cell = "1"
serde = { version = "1", features = ["derive"] }
serde_json = "1"
ulid = "1"
yaml-rust2 = "*"

[dev-dependencies]
regex = "1"
