[package]
name = "remote_monitor"
version = "0.1.0"
edition = "2021"
publish = false

[dependencies]
humansize = "*"
anyhow = "*"
chrono = "*"
clap = { version = "*", features = ["derive"] }
crossterm = "*"
prettytable-rs = "*"
ratatui = "*"
rpassword = "*"
ssh2 = "*"
tokio = { version = "*", features = ["rt-multi-thread", "macros"] }
