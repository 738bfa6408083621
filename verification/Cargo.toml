[package]
name = "rustlog"
version = "0.1.0"
edition = "2021"
publish = false

[dependencies]
uuid = "*"
rand = "*"
serde = { version = "*", features = ["derive"] }
serde_repr = "*"
tokio = { version = "*", features = ["rt-multi-thread", "macros", "time", "sync", "io-util", "io-std", "signal"] }
clickhouse = "*"
reqwest = { version = "*", default-features = false, features = ["rustls-tls", "json"] }

[dev-dependencies]
tmi = "*"
