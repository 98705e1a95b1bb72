[package]
name = "dropstf"
version = "0.1.0"
edition = "2021"
publish = false

[dependencies]
tokio = { version = "*", features = ["full"] }
axum = "*"
sqlx = { version = "*", default-features = false, features = ["runtime-tokio", "postgres"] }
serde = { version = "*", features = ["derive"] }
dotenvy = "*"
thiserror = "*"
steam-resolve-vanity = "*"
