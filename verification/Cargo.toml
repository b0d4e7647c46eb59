[package]
name = "payouts_core"
version = "0.1.0"
edition = "2021"
publish = false

[dependencies]
base64 = "*"
rust_iso3166 = "*"
chrono = "*"
dashmap = "*"
dotenvy = "*"
futures = "*"
reqwest = { version = "*", default-features = false, features = ["json"] }
rust_decimal = "*"
serde = { version = "*", features = ["derive"] }
serde_json = "*"
sqlx = { version = "*", default-features = false, features = ["runtime-tokio", "postgres", "rust_decimal", "chrono"] }
clickhouse = "*"
tokio = { version = "*", features = ["sync", "rt-multi-thread", "macros", "time"] }
