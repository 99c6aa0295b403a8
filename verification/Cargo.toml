[package]
name = "bookstore"
version = "0.1.0"
edition = "2021"
publish = false

[dependencies]
dotenvy = "*"
eyre = "*"
sqlx = { version = "*", default-features = false, features = ["runtime-tokio", "postgres"] }
tokio = { version = "*", features = ["macros", "rt-multi-thread"] }
