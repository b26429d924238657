[package]
name = "anthill"
version = "0.1.0"
edition = "2021"
publish = false

[dependencies]
actix = "0.13"
actix-files = "0.6"
actix-web = "4"
actix-web-actors = "4"
clap = { version = "4", features = ["derive"] }
diesel = { version = "2", features = ["postgres", "r2d2"] }
diesel_migrations = "2"
dotenv = "0.15"
env_logger = "*"
log = "0.4"
regex = "1"
serde = { version = "1", features = ["derive"] }
serde_json = "1"
