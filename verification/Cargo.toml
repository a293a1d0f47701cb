[package]
name = "lint"
version = "0.1.0"
edition = "2021"
publish = false

[dependencies]
pulldown-cmark = { version = "*", default-features = false }
clap = { version = "4", features = ["derive"] }
