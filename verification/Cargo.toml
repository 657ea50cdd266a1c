[package]
name = "scrolled_quran"
version = "0.1.0"
edition = "2021"
publish = false

[dependencies]
jiff = { version = "0.2", features = ["serde"] }
serde = { version = "1", features = ["derive"] }
toml = "0.9"
anyhow = "1"
