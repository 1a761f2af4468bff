[package]
name = "migration_engine"
version = "0.1.0"
edition = "2021"
publish = false

[dependencies]
dotenvy = "=0.15.7"

[dev-dependencies]
rusqlite = { version = "*", features = ["bundled"] }
