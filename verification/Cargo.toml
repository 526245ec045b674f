[package]
name = "tracklist"
version = "0.1.0"
edition = "2021"
publish = false

[dependencies]
regex = "1"
lofty = "*"
clap = { version = "4", features = ["derive"] }
copypasta = "*"
