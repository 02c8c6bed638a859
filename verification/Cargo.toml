[package]
name = "game_of_life_lib"
version = "0.1.0"
edition = "2021"
publish = false

[dependencies]
rand = "*"
uuid = { version = "*", features = ["v4"] }
tokio = { version = "*", features = ["full"] }
axum = { version = "*", features = ["ws"] }
serde = { version = "*", features = ["derive"] }
serde_json = "*"
