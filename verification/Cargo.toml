[package]
name = "enthropic"
version = "0.1.0"
edition = "2021"
publish = false

[dependencies]
anyhow = "1"
chacha20poly1305 = "0.10"
clap = { version = "4", features = ["derive"] }
colored = "2"
console = "0.15"
dialoguer = "0.11"
rand = "0.8"
serde = { version = "1", features = ["derive"] }
serde_json = "1"
