[package]
name = "audioscan"
version = "0.1.0"
edition = "2021"
publish = false

[dependencies]
symphonia = { version = "0.5", features = ["mp3", "aac", "isomp4"] }
ebur128 = "0.1"
serde = { version = "1", features = ["derive"] }
serde_json = "1"
rayon = "1"
