[package]
name = "eternal_terminal"
version = "0.1.0"
edition = "2021"
publish = false

[dependencies]
anyhow = "1"
bytes = "1"
clap = { version = "4", features = ["derive"] }
crossterm = "0.29"
crypto_secretbox = "0.1"
ctrlc = "3"
env_logger = "0.11"
log = "0.4"
parking_lot = "0.12"
rand = "0.10"
