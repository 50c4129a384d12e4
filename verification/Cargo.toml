[package]
name = "minigrep"
version = "0.1.0"
edition = "2021"
publish = false

[dependencies]
chrono = { version = "=0.4.45", features = ["serde"] }
serde = { version = "=1.0.229", features = ["derive"] }
serde_json = "=1.0.154"
serde_yaml = "=0.9.34"
notify = "=4.0.18"
dotenv = "=0.15.0"
env_logger = "=0.10.2"
futures = "=0.3.34"
bytes = "=1.12.1"
actix = "=0.13.5"
actix-web = { version = "=4.18.1", default-features = false, features = ["macros"] }
diesel = { version = "=2.3.14", default-features = false, features = ["sqlite", "r2d2", "chrono"] }
libsqlite3-sys = { version = "=0.38.2", features = ["bundled"] }

[dev-dependencies]
regex = "=1.13.1"
