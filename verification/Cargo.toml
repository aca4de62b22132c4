[package]
name = "ysd"
version = "0.1.0"
edition = "2021"
publish = false

[dependencies]
termion = "=1.5.6"
regex = "=1.13.1"
serde = { version = "=1.0.229", features = ["derive"] }
serde_derive = "=1.0.229"
toml = "=0.5.11"
dirs = "=2.0.2"
ncurses = "=5.101.0"
lazy_static = "1"
