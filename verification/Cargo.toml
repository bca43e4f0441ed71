[package]
name = "convertbar"
version = "0.1.0"
edition = "2021"
publish = false

[dependencies]
axum = "0.8"
axum-extra = { version = "*", features = ["cookie"] }
chrono = "0.4"
constant_time_eq = "*"
dirs = "*"
fs4 = "*"
futures-util = "0.3"
ipnet = "2"
libc = "0.2"
mime_guess = "2"
notify = "*"
regex = "1"
rusqlite = { version = "*", features = ["bundled"] }
serde = { version = "1", features = ["derive"] }
serde_json = "1"
tokio = { version = "1", features = ["full"] }
tokio-stream = { version = "0.1", features = ["sync"] }
tracing = "0.1"
tracing-subscriber = { version = "0.3", features = ["env-filter"] }
trash = "*"
uuid = { version = "1", features = ["v4"] }
