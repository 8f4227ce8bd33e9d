[package]
name = "overseer"
version = "0.1.0"
edition = "2021"
publish = false

[dependencies]
serde = { version = "=1.0.229", features = ["derive"] }
serde_json = "=1.0.154"
sqlx = { version = "=0.7.4", default-features = false, features = ["runtime-tokio", "mysql", "macros"] }
tokio = { version = "=1.54.1", features = ["full"] }
toml = "=0.8.23"
axum = { version = "=0.7.9", features = ["ws"] }
tower-http = { version = "=0.5.2", features = ["fs", "set-header"] }
wow_dbc = { version = "=0.3.0", features = ["wrath"] }
wow-mpq = "=0.7.0"
