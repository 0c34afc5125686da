[package]
name = "tunnl"
version = "0.1.0"
edition = "2021"
publish = false

[dependencies]
anyhow = "*"
async-trait = "*"
axum = "*"
console = "*"
dotenvy = "*"
env_logger = "*"
hex = "*"
log = "*"
rand = "*"
reqwest = { version = "*", default-features = false, features = ["json"] }
russh = "*"
russh-keys = "*"
serde = { version = "*", features = ["derive"] }
thiserror = "*"
tokio = { version = "*", features = ["full"] }
tower-http = { version = "*", features = ["cors"] }
