[package]
name = "ttysvg"
version = "0.1.0"
edition = "2021"
publish = false

[dependencies]
anyhow = "1"
clap = { version = "4", features = ["derive"] }
crossterm = "0.28"
portable-pty = "0.8"
ratatui = "0.29"
regex = "1"
resvg = "0.44"
serde = { version = "1", features = ["derive"] }
serde_json = "1"
toml = "0.8"
vt100 = "0.15"
webp-animation = "0.9"
gif = "0.13"
png = "0.17"
