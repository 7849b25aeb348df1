[package]
name = "quilt-lang"
version = "0.1.0"
edition = "2021"
publish = false

[dependencies]
anyhow = "1"
clap = { version = "3", features = ["derive"] }
image = { version = "0.24", default-features = false, features = ["png", "gif", "bmp"] }
termion = "1.5"
tui = { version = "0.19", default-features = false, features = ["termion"] }
