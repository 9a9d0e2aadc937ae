[package]
name = "post"
version = "0.1.0"
edition = "2021"
publish = false

[dependencies]
clap = { version = "3", features = ["derive"] }
clipboard = "0.5"
shellexpand = "2"
