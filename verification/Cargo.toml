[package]
name = "ducki"
version = "0.1.0"
edition = "2021"
publish = false

[dependencies]
rs-fsrs = { version = "1", features = ["serde"] }
chrono = { version = "0.4", features = ["serde"] }
rand = "0.8"
uuid = { version = "1", features = ["v4"] }
serde = { version = "1", features = ["derive"] }
serde_json = "1"
clap = { version = "4", features = ["derive"] }
csv = "1"
cursive = { version = "*", default-features = false, features = ["crossterm-backend"] }
cursive-hjkl = "*"
directories = "*"
inquire = "*"
termion = "*"
