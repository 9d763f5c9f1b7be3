[package]
name = "interval_store"
version = "0.1.0"
edition = "2021"
publish = false

[dependencies]
tokio = { version = "*", features = ["macros", "rt-multi-thread"] }
tokio-postgres = "*"
native-tls = "*"
postgres-native-tls = "*"
dotenv = "*"
