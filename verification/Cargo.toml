[package]
name = "echo_server"
version = "1.0.1"
edition = "2021"
publish = false

[dependencies]
actix-web = { version = "4", default-features = false, features = ["macros"] }
clap = "4"
env_logger = "0.11"
num_cpus = "1"
serde = { version = "1", features = ["derive"] }
toml = "0.8"
