[package]
name = "dscribe"
version = "0.1.0"
edition = "2021"
publish = false

[dependencies]
anyhow = "1"
clap = { version = "4", features = ["derive"] }
crossterm = "*"
dirs = "*"
ignore = "*"
ratatui = { version = "*", features = ["widget-calendar"] }
skim = "*"
time = { version = "0.3", features = ["formatting", "local-offset"] }
