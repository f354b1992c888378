[package]
name = "linkstore"
version = "0.1.0"
edition = "2021"
publish = false

[dependencies]
nanoid = "0.4"
axum = "0.6"
serde = { version = "1", features = ["derive"] }
tokio = { version = "1", features = ["macros", "rt-multi-thread"] }
