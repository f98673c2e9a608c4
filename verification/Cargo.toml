[package]
name = "wordle"
version = "0.1.0"
edition = "2021"
publish = false

[dependencies]
atty = "*"
clap = { version = "*", features = ["derive"] }
console = "*"
rand = "*"
serde = { version = "*", features = ["derive"] }
serde_json = "*"
