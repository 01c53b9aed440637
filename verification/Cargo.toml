[package]
name = "twch"
version = "0.1.0"
edition = "2021"
publish = false

[dependencies]
ansi_term = "0.12"
rand = "0.8"
actix-web = "3"
anyhow = "1"
dotenv = "0.15"
env_logger = "0.8"
futures = "0.3"
irc = { version = "*", default-features = false }
serde = { version = "1", features = ["derive"] }
structopt = "0.3"
