[package]
name = "switchdns"
version = "0.1.0"
edition = "2021"
publish = false

[dependencies]
anyhow = "1"
crossterm = "0.28"
dirs = "6"
is-root = "0.1"
ratatui = "0.29"
users = "0.11"
