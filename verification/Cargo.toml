[package]
name = "omnichat"
version = "0.1.0"
edition = "2021"
publish = false

[dependencies]
termion = "1"
