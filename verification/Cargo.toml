[package]
name = "relay_rs"
version = "0.1.0"
edition = "2021"
publish = false

[dependencies]
nostr = { version = "0.39", default-features = false, features = ["std"] }
negentropy = "0.4"
serde_json = "1"
hex = "0.4"
nanoid = "0.4"
chrono = "0.4"
axum = { version = "0.7", features = ["ws"] }
tokio = { version = "1", features = ["full"] }
futures = "0.3"
sqlx = { version = "0.7", default-features = false, features = ["runtime-tokio", "postgres", "chrono", "json"] }
redis = { version = "0.24", features = ["tokio-comp"] }
deadpool-redis = "0.14"
tower-http = { version = "0.5", features = ["compression-gzip", "compression-deflate"] }
tracing = "0.1"
tracing-subscriber = "0.3"
