[package]
name = "enriching_students"
version = "0.1.0"
edition = "2021"
publish = false

[dependencies]
reqwest = { version = "*", default-features = false }
rusqlite = { version = "*", features = ["bundled"] }
tokio = { version = "*", features = ["macros", "rt-multi-thread"] }
