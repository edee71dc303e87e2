[package]
name = "sdgenbox"
version = "0.1.0"
edition = "2021"
publish = false

[dependencies]
json = "0.12"
rand = "0.8"
chrono = "0.4"
sqlx = { version = "0.8", default-features = false, features = ["sqlite", "runtime-tokio"] }
tokio = { version = "1", default-features = false, features = ["rt", "macros", "fs", "io-util"] }
