[package]
name = "hwall"
version = "0.1.0"
edition = "2021"
publish = false

[dependencies]
serde = { version = "=1.0.229", features = ["derive"] }
serde_json = "=1.0.154"
clap = { version = "=4.6.7", features = ["derive"] }
directories = "=6.0.0"
libc = "=0.2.191"
ratatui = "*"
