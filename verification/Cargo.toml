[package]
name = "merces_tui"
version = "0.1.0"
edition = "2021"
publish = false

[dependencies]
eyre = "=0.6.14"
image = { version = "=0.25.10", default-features = false, features = ["png"] }
num-format = "=0.4.4"
ratatui = "=0.30.2"
ratatui-image = { version = "=11.1.0", default-features = false, features = ["crossterm"] }
tui-scrollview = "=0.6.8"
