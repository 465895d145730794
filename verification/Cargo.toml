[package]
name = "prompt_condensor"
version = "0.1.0"
edition = "2021"
publish = false

[dependencies]
regex = "1"
serde = { version = "1", features = ["derive"] }
thiserror = "2"
tracing = "0.1"
clap = { version = "4", features = ["derive"] }
crossterm = "0.27"
ratatui = "0.24"
rand = "0.9"
chrono = "0.4"
