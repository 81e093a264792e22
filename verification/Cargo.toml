[package]
name = "zero2prod"
version = "0.1.0"
edition = "2021"
publish = false

[dependencies]
actix-session = { version = "*", features = ["cookie-session"] }
actix-web = { version = "4", default-features = false, features = ["macros", "cookies"] }
actix-web-flash-messages = { version = "*", features = ["cookies"] }
actix-web-lab = "*"
anyhow = "1"
chrono = { version = "0.4", default-features = false, features = ["clock"] }
rand = "0.8"
reqwest = { version = "0.11", default-features = false, features = ["json", "rustls-tls"] }
secrecy = { version = "0.8", features = ["serde"] }
serde = { version = "1", features = ["derive"] }
sqlx = { version = "0.7", default-features = false, features = ["runtime-tokio-rustls", "macros", "postgres", "uuid", "chrono"] }
thiserror = "1"
tokio = { version = "1", features = ["macros", "rt-multi-thread", "time"] }
tracing = "0.1"
tracing-actix-web = "0.7"
unicode-segmentation = "1"
uuid = { version = "1", features = ["v4", "serde"] }
validator = "*"

[dev-dependencies]
fake = "*"
