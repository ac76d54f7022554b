[package]
name = "pilum"
version = "0.1.0"
edition = "2021"
publish = false

[dependencies]
clap = { version = "=4.6.7", features = ["derive"] }
dirs = "=5.0.1"
serde = { version = "1", features = ["derive"] }
surrealdb = { version = "=1.0.0", default-features = false, features = ["kv-rocksdb"] }
tokio = { version = "=1.54.1", features = ["macros", "rt-multi-thread"] }
