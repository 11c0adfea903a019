[package]
name = "bookbuddy"
version = "0.1.0"
edition = "2021"
publish = false

[dependencies]
anyhow = "*"
epub = "*"
futures = "*"
reqwest = { version = "*", default-features = false }
serde = { version = "*", features = ["derive"] }
serde_json = "*"
sqlx = { version = "*", default-features = false, features = ["sqlite", "runtime-tokio", "migrate", "json"] }
time = "*"
tokio = { version = "*", features = ["macros", "rt-multi-thread", "time"] }
url = "*"
