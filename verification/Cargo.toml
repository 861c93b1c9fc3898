[package]
name = "airline_api"
version = "0.1.0"
edition = "2021"
publish = false

[dependencies]
jsonwebtoken = { version = "=11.1.0", features = ["rust_crypto"] }
bcrypt = "=0.19.3"
serde = { version = "*", features = ["derive"] }
serde_json = "*"
chrono = { version = "*", features = ["serde"] }
axum = "=0.8.9"
tokio = { version = "*", features = ["full"] }
sqlx = { version = "=0.9.0", features = ["runtime-tokio", "mysql", "chrono"] }
tower-http = { version = "*", features = ["cors", "trace"] }
tracing = "*"
tracing-subscriber = { version = "*", features = ["env-filter"] }
dotenv = "*"
anyhow = "*"
thiserror = "*"
async-trait = "*"
