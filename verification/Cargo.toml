[package]
name = "cloudflare_executor"
version = "0.1.0"
edition = "2021"
publish = false

[dependencies]
chrono = "=0.4.45"
serde = { version = "=1.0.229", features = ["derive"] }
tokio = { version = "=1.53.2", features = ["macros", "rt-multi-thread"] }
actix-web = { version = "=4.15.0", default-features = false, features = ["macros"] }
reqwest = { version = "=0.12.28", default-features = false, features = ["json"] }
pepe-config = "=0.2.7"
tracing = "0.1"
tracing-subscriber = { version = "0.3", features = ["env-filter"] }
