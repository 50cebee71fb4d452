[package]
name = "git_explorer"
version = "0.1.0"
edition = "2021"
publish = false

[dependencies]
anyhow = "1"
crossterm = "0.28"
notify = "6"
ratatui = "0.29"
unicode-width = "0.2"
