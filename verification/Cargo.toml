[package]
name = "aenyrathia"
version = "0.1.0"
edition = "2021"
publish = false

[dependencies]
markdown = "*"
rand = "0.9"
rand_core = { version = "0.6", features = ["getrandom"] }
argon2 = "0.5"
axum = "0.8"
tokio = { version = "1", features = ["full"] }
tower-cookies = "0.11"
tower-http = { version = "0.6", features = ["fs", "timeout", "normalize-path"] }
askama = "*"
clap = { version = "4", features = ["derive"] }
env_logger = "*"
log = "0.4"
serde = { version = "1", features = ["derive"] }
sqlx = { version = "0.8", default-features = false, features = ["runtime-tokio", "sqlite", "migrate", "macros"] }
tempfile = "3"
git2 = "*"
ignore = "0.4"
