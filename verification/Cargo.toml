[package]
name = "muus_watcher"
version = "0.1.0"
edition = "2021"
publish = false

[dependencies]
chrono = "0.4"
frankenstein = "*"
reqwest = { version = "0.12", default-features = false, features = ["blocking"] }
serde = { version = "1", features = ["derive"] }
serde_json = "1"
tokio = { version = "1", features = ["macros", "rt-multi-thread", "sync", "time"] }
