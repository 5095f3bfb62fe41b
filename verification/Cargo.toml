[package]
name = "todotxt"
version = "0.1.0"
edition = "2021"
publish = false

[dependencies]
time = { version = "=0.3.55", features = ["parsing", "formatting", "local-offset"] }
clap = { version = "=4.6.7", features = ["derive"] }
ratatui = { version = "=0.30.2", features = ["unstable-rendered-line-info"] }
