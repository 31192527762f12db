[package]
name = "pedicab"
version = "0.1.0"
edition = "2021"
publish = false

[dependencies]
ahash = "0.8"
anyhow = "1"
axum = "0.8"
bincode = { version = "2", features = ["derive"] }
clap = { version = "4", features = ["derive", "env"] }
console = "0.15"
dotenvy = "0.15"
http = "1"
httpdate = "1"
mimalloc = "0.1"
moka = { version = "0.12", features = ["sync"] }
rand = "0.9"
rlimit = "0.10"
serde = { version = "1", features = ["derive"] }
serde_json = "1"
sled = "0.34"
socket2 = { version = "0.6", features = ["all"] }
sysinfo = { version = "0.33", features = ["serde"] }
thiserror = "2"
tokio = { version = "1", features = ["full"] }
tower = "0.5"
tower-http = { version = "0.6", features = ["compression-gzip", "normalize-path", "request-id", "timeout", "trace"] }
tracing = "0.1"
tracing-subscriber = { version = "0.3", features = ["env-filter"] }
uuid = { version = "1", features = ["v7", "serde"] }
