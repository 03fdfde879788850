[package]
name = "todolist"
version = "0.1.0"
edition = "2021"
publish = false

[dependencies]
chrono = "*"
clap = { version = "*", features = ["derive"] }
colored = "*"
prettytable-rs = "*"
dirs = "*"
serde = { version = "*", features = ["derive"] }
serde_json = "*"
