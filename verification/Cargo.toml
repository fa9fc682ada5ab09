[package]
name = "pdiff"
version = "0.1.0"
edition = "2021"
publish = false

[dependencies]
syntect = { version = "5", default-features = false, features = ["default-fancy"] }
ratatui = "0.29"
crossterm = "0.28"
clap = { version = "4", features = ["derive"] }
dirs = "5"
