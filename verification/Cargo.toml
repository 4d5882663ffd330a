[package]
name = "rusty_cleaner"
version = "0.2.1"
edition = "2021"
publish = false

[dependencies]
clap = { version = "4", features = ["derive"] }
crossterm = "*"
fs_extra = "*"
ratatui = "*"
