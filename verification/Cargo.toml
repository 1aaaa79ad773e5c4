[package]
name = "tasktui"
version = "0.1.0"
edition = "2021"
publish = false

[dependencies]
chrono = "*"
colored = "*"
crossterm = "*"
dirs = "*"
edit = "*"
matter = "0.1.0-alpha4"
ratatui = "*"
serde = { version = "*", features = ["derive"] }
serde_yaml = "*"
tempfile = "*"
unicode-width = "*"
