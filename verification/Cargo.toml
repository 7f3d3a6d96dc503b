[package]
name = "slot_booking"
version = "0.1.0"
edition = "2021"
publish = false

[dependencies]
chrono = { version = "0.4", default-features = false, features = ["std"] }
itertools = "0.13"
actix-web = { version = "4", default-features = false, features = ["macros"] }
sqlx = { version = "0.8", default-features = false, features = ["mysql", "runtime-tokio", "chrono"] }
serde = { version = "1", features = ["derive"] }
thiserror = "1"
dotenvy = "0.15"
env_logger = { version = "0.11", default-features = false }
