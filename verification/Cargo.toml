[package]
name = "ruprizzle"
version = "1.0.0"
edition = "2021"
publish = false

[dependencies]
sqlx = { version = "=0.8.6", default-features = false, features = ["any"] }
serde = { version = "=1.0.229", features = ["derive"] }
serde_json = "=1.0.154"
thiserror = "=2.0.21"
chrono = { version = "=0.4.45", default-features = false, features = ["std", "now"] }
