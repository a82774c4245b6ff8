[package]
name = "rs_bff"
version = "0.1.0"
edition = "2021"
publish = false

[dependencies]
anyhow = "1"
clap = { version = "4", features = ["derive"] }
ratatui = "0.29"
termios = "0.3"
thiserror = "2"
