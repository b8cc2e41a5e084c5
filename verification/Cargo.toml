[package]
name = "player_stats"
version = "0.1.0"
edition = "2021"
publish = false

[dependencies]
anyhow = "*"
diesel = { version = "*", features = ["postgres"] }
serde = { version = "*", features = ["derive"] }
