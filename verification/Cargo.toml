[package]
name = "flook"
version = "0.1.0"
edition = "2021"
publish = false

[dependencies]
clap = { version = "4", features = ["derive"] }
crossterm = "0.28"
ratatui = "0.29"
syntect = { version = "5", default-features = false, features = ["default-fancy"] }
