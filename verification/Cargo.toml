[package]
name = "hcmd"
version = "0.1.0"
edition = "2021"
publish = false

[dependencies]
anyhow = "1"
crossterm = "0.29"
cuid = "1"
devicons = "*"
ratatui = "0.30"
serde = { version = "1", features = ["derive"] }
