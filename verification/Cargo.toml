[package]
name = "hermes"
version = "0.1.0"
edition = "2021"
publish = false

[dependencies]
clap = { version = "4", features = ["derive"] }
crossterm = "0.28"
dotenv = "0.15"
imap = "2"
native-tls = "0.2"
ratatui = "0.29"
