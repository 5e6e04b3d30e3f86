[package]
name = "kimchi_arbitrage"
version = "0.1.0"
edition = "2021"
publish = false

[dependencies]
actix-cors = "*"
actix-web = { version = "*", default-features = false, features = ["macros"] }
anyhow = "*"
bigdecimal = { version = "*", features = ["serde"] }
chrono = { version = "*", features = ["serde"] }
dotenvy = "*"
env_logger = "*"
log = "*"
reqwest = { version = "*", default-features = false, features = ["json", "rustls-tls"] }
serde = { version = "*", features = ["derive"] }
serde_json = "*"
sqlx = { version = "*", default-features = false, features = ["mysql", "runtime-tokio", "bigdecimal", "chrono"] }
thiserror = "*"
tokio = { version = "*", features = ["macros", "rt-multi-thread"] }
tokio-cron-scheduler = "*"
