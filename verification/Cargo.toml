[package]
name = "beatmap_patterns"
version = "0.1.0"
edition = "2021"
publish = false

[dependencies]
rosu-map = "*"
serde = { version = "1", features = ["derive"] }
