[package]
name = "osti"
version = "0.1.0"
edition = "2021"
publish = false

[dependencies]
nonempty = "*"
crossterm = "*"
ratatui = "*"
clap = { version = "*", features = ["derive"] }
color-eyre = "*"
cpal = "*"
dasp_signal = "*"
rtrb = "*"
thiserror = "*"
