[package]
name = "backend"
version = "0.1.0"
edition = "2021"
publish = false

[dependencies]
anyhow = "1"
axum = "*"
axum-server = { version = "*", default-features = false, features = ["tls-rustls-no-provider"] }
bytes = "1"
chrono = { version = "0.4", features = ["serde"] }
dashmap = "*"
flate2 = "1"
futures-util = "0.3"
hex = "0.4"
http = "1"
native-tls = "*"
reqwest = "*"
rustls = { version = "*", default-features = false, features = ["ring", "std", "logging", "tls12"] }
rustls-pemfile = "*"
serde = { version = "1", features = ["derive"] }
serde_json = "1"
sha2 = "*"
socketioxide = "*"
sqlx = { version = "*", default-features = false, features = ["sqlite", "runtime-tokio"] }
thiserror = "*"
tokio = { version = "1", features = ["full"] }
tokio-native-tls = "*"
tokio-tungstenite = "*"
tower-http = { version = "*", features = ["cors"] }
tracing = "0.1"
tracing-subscriber = { version = "0.3", features = ["env-filter"] }
ts-rs = "*"
url = "2"
uuid = { version = "1", features = ["v4"] }
