[package]
name = "runes_indexer"
version = "0.1.0"
edition = "2021"
publish = false

[dependencies]
actix-web = "4"
anyhow = "1"
async-recursion = "1"
bitcoin = "0.30"
chrono = "0.4"
colored = "2"
hex = "0.4"
r2d2 = "0.8"
r2d2_sqlite = "0.24"
reqwest = { version = "0.11", default-features = false, features = ["json", "rustls-tls"] }
rusqlite = { version = "0.31", features = ["bundled"] }
serde = { version = "1", features = ["derive"] }
serde_json = "1"
serde_with = "3"
utoipa = { version = "3", features = ["actix_extras"] }
utoipa-swagger-ui = { version = "3", features = ["actix-web"] }
