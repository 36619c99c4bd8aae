[package]
name = "obsidian_watch"
version = "0.1.0"
edition = "2021"
publish = false

[dependencies]
anyhow = "1"
chrono = "0.4"
clap = { version = "4", features = ["derive"] }
notify = "*"
notify-debouncer-full = "*"
serde = { version = "1", features = ["derive"] }
toml = "*"
