[package]
name = "pasotsu-term"
version = "0.1.0"
edition = "2021"
publish = false

[dependencies]
anyhow = "1"
clap = { version = "4", features = ["derive"] }
encoding_rs = "0.8"
ratatui = "0.29"
serialport = { version = "4", default-features = false }
vt100 = "0.15"
