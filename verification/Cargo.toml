[package]
name = "file_organizer"
version = "0.1.0"
edition = "2021"
publish = false

[dependencies]
chrono = "*"
walkdir = "*"
dirs = "*"
sysinfo = "*"
serde = { version = "*", features = ["derive"] }
serde_json = "*"
