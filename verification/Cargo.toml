[package]
name = "gitx"
version = "0.2.0"
edition = "2021"
publish = false

[dependencies]
chrono = "*"
git2 = "*"
sqlx = { version = "*", default-features = false, features = ["runtime-tokio", "sqlite"] }
tokio = { version = "*", features = ["full"] }
axum = "*"
askama = "*"
serde = { version = "*", features = ["derive"] }
toml = "*"
clap = { version = "*", features = ["derive"] }
thiserror = "*"
anyhow = "*"
moka = { version = "*", features = ["future"] }
bincode = "1"
async-trait = "*"
tower-http = { version = "*", features = ["fs", "cors"] }
tracing = "*"
tracing-subscriber = "*"
