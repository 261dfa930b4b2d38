[package]
name = "fomu"
version = "0.1.0"
edition = "2021"
publish = false

[dependencies]
anyhow = "1"
clap = { version = "4", features = ["derive"] }
crossterm = "0.28"
directories = "5"
open = "5"
rand = "0.8"
ratatui = "0.29"
reqwest = { version = "0.12", default-features = false, features = ["blocking", "default-tls"] }
ringbuf = "0.4"
rustfft = "6"
symphonia = { version = "0.5", features = ["mp3"] }
