[package]
name = "tplcore"
version = "0.1.0"
edition = "2021"
publish = false

[dependencies]
minijinja = "*"
axum = "*"
serde = { version = "*", features = ["derive"] }
sqlx = { version = "*", features = ["runtime-tokio", "postgres"] }
tokio = { version = "*", features = ["full"] }
tower-http = { version = "*", features = ["fs"] }
