[package]
name = "metronome"
version = "0.1.2"
edition = "2021"
publish = false

[dependencies]
clap = { version = "4", features = ["derive"] }
crossterm = "0.28"
ctrlc = "3"
rodio = { version = "0.20", default-features = false }
unicode-width = "0.2"
