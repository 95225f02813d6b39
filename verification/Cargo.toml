[package]
name = "redit"
version = "0.1.0"
edition = "2021"
publish = false

[dependencies]
chrono = "0.4"
clap = "2"
crossterm = "0.25"
dirs = "4"
serde = "1"
serde_derive = "1"
syntect = { version = "4", default-features = false, features = ["default-fancy"] }
toml = "0.5"
tui = "0.19"
