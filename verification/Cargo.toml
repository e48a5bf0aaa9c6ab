[package]
name = "translate_gateway"
version = "0.1.0"
edition = "2021"
publish = false

[dependencies]
lru = "0.12"
md5 = "0.7"
serde_json = "1"
serde = { version = "1", features = ["derive"] }
axum = "0.7"
tokio = { version = "1", features = ["macros", "rt-multi-thread", "net", "sync"] }
reqwest = { version = "0.12", default-features = false, features = ["json", "rustls-tls"] }
tower-http = { version = "0.5", features = ["cors", "fs"] }
dotenvy = "0.15"
