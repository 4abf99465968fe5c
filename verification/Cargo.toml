[package]
name = "student_reports"
version = "0.1.0"
edition = "2021"
rust-version = "1.95"
publish = false

[dependencies]
futures = "=0.3.34"
kstring = ">=2.0.0, <=2.0.2"
liquid = "=0.26.11"
reqwest = { version = "=0.12.28", features = ["json"] }
serde = { version = "=1.0.229", features = ["derive"] }
sqlx = { version = "=0.8.6", default-features = false, features = ["sqlite", "runtime-tokio"] }
tokio = { version = "=1.54.1", features = ["macros", "rt-multi-thread"] }
toml = "=0.8.23"
