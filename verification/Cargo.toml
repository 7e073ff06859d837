[package]
name = "paws_games"
version = "0.4.0"
edition = "2021"
publish = false

[dependencies]
crossterm = "=0.28.1"
ratatui = "=0.29.0"
rand = "0.8"
