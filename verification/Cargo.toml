[package]
name = "my_game"
version = "0.1.0"
edition = "2021"
publish = false

[dependencies]
macroquad = { version = "0.4", default-features = false }
bincode = "1"
serde = { version = "1", features = ["derive"] }
whoami = "1"
