[package]
name = "mdsorto"
version = "0.3.1"
edition = "2021"
publish = false

[dependencies]
rand = "=0.8.8"
ratatui = "0.27"
crossterm = { version = "=0.27.0", features = ["event-stream"] }
tui-big-text = "=0.4.7"
tokio = { version = "=1.54.1", features = ["full"] }
tokio-util = "=0.7.20"
futures = "=0.3.34"
color-eyre = "=0.6.5"
log = "=0.4.35"
simplelog = "=0.12.2"
ini = "=1.3.0"
build-time = "=0.1.3"
