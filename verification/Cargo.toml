[package]
name = "portman"
version = "0.1.0"
edition = "2021"
publish = false

[dependencies]
anyhow = "1"
clap = { version = "4", features = ["derive"] }
directories = "5"
rand = "0.8"
serde = { version = "1", features = ["derive"] }
thiserror = "1"
toml = "0.8"
