[package]
name = "mosaic"
version = "0.1.0"
edition = "2021"
publish = false

[dependencies]
ropey = { version = "1.6", default-features = false }
crossterm = "0.28"
ratatui = "0.29"
regex = "1"
uuid = { version = "1", features = ["v4"] }
