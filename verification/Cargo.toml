[package]
name = "tealdeer"
version = "0.1.0"
edition = "2021"
publish = false

[dependencies]
ansi_term = "=0.12.1"
app_dirs = "=1.2.1"
atty = "=0.2.14"
clap = { version = "=4.6.7", features = ["derive"] }
env_logger = "=0.11.11"
pager = "=0.16.1"
