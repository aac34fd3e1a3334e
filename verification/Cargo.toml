[package]
name = "hex_forge"
version = "0.1.0"
edition = "2021"
publish = false

[dependencies]
memmap2 = "0.9"
ratatui = "0.29"
crossterm = "0.28"
clap = { version = "4", features = ["derive"] }
