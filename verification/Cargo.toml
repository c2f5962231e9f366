[package]
name = "thmp5"
version = "0.1.0"
edition = "2021"
publish = false

[dependencies]
anyhow = "=1.0.104"
base64 = "=0.22.1"
hex = "=0.4.3"
lofty = "=0.25.5"
md-5 = "=0.10.6"
nonempty = "=0.12.0"
reqwest = { version = "=0.12.28", default-features = false, features = ["json", "rustls-tls"] }
rusty-chromaprint = "=0.3.0"
serde = { version = "=1.0.229", features = ["derive"] }
serde_json = "=1.0.154"
sha2 = "=0.10.9"
sqlx = { version = "=0.8.6", default-features = false, features = ["sqlite", "runtime-tokio"] }
symphonia = { version = "=0.5.5", features = ["mp3", "aac", "isomp4", "alac"] }
tokio = { version = "=1.54.1", features = ["rt-multi-thread", "macros", "sync", "time", "fs"] }
tracing = "=0.1.44"
tracing-subscriber = { version = "=0.3.23", features = ["env-filter"] }
uuid = { version = "=1.29.0", features = ["v4"] }
walkdir = "=2.5.0"
