[package]
name = "anisearch"
version = "0.1.0"
edition = "2021"
publish = false

[dependencies]
chrono = { version = "0.4", default-features = false, features = ["alloc"] }
cruet = "0.15"
poise = "0.6"
rand = "0.9"
regex = "1"
tokio = { version = "1", features = ["macros", "rt-multi-thread", "sync", "time"] }
