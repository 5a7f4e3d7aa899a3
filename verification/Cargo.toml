[package]
name = "daysquare_backend"
version = "0.1.0"
edition = "2021"
publish = false

[dependencies]
tracing = "=0.1.44"
uuid = { version = "1", features = ["v4"] }
axum = "=0.2.8"
hyper = { version = "=0.14.32", features = ["full"] }
tower-http = { version = "=0.1.3", features = ["trace"] }
tokio = { version = "=1.54.1", features = ["macros", "rt-multi-thread"] }
sqlx = { version = "=0.7.4", default-features = false, features = ["runtime-tokio", "tls-rustls", "postgres", "uuid"] }
config = { version = "=0.11.0", default-features = false, features = ["yaml"] }
serde = { version = "=1.0.229", features = ["derive"] }
thiserror = "=1.0.69"
tracing-subscriber = { version = "=0.2.25", default-features = false, features = ["fmt"] }

[dev-dependencies]
regex = "=1.13.1"
