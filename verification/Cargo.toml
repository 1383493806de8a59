[package]
name = "ino_checker"
version = "0.1.0"
edition = "2021"
publish = false

[dependencies]
strsim = "*"
anda_db_hnsw = "*"
serde = { version = "*", features = ["derive"] }
anyhow = "*"
tokio = { version = "*", features = ["rt", "rt-multi-thread", "sync", "time", "macros"] }
futures = "*"
reqwest = { version = "*", default-features = false, features = ["json"] }
actix-web = { version = "*", default-features = false, features = ["macros"] }
rusqlite = { version = "*", features = ["bundled"] }
calamine = "*"
dotenv = "*"
env_logger = "*"
