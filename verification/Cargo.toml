[package]
name = "taskui"
version = "0.1.0"
edition = "2021"
publish = false

[dependencies]
anyhow = "*"
colored = "*"
crossterm = "*"
ratatui = "*"
serde_yaml = "*"
