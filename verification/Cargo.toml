[package]
name = "proviz"
version = "0.1.0"
edition = "2021"
publish = false

[dependencies]
dashmap = "6"
sha2 = "0.10"
hex = "0.4"
url = "2"
serde = { version = "1", features = ["derive"] }
serde_json = "1"
toml = "0.8"
tokio = { version = "1", features = ["full"] }
axum = "0.7"
tower-http = { version = "0.5", features = ["trace"] }
reqwest = { version = "0.12", default-features = false, features = ["json", "rustls-tls"] }
rusqlite = { version = "0.31", features = ["bundled"] }
sqlx = { version = "0.7", default-features = false, features = ["postgres", "runtime-tokio"] }
chrono = "0.4"
tracing = "0.1"
tracing-subscriber = { version = "0.3", features = ["env-filter", "json"] }
uuid = { version = "1", features = ["v4"] }
anyhow = "1"
thiserror = "1"
async-trait = "0.1"

[dev-dependencies]
tempdir = "0.3"
