[package]
name = "landscape_core"
version = "0.1.0"
edition = "2021"
publish = false

[dependencies]
libc = "=0.2.190"
lru = { version = "=0.18.5", default-features = false }
tokio = { version = "*", features = ["rt", "sync", "time", "macros", "net"] }
serde = { version = "*", features = ["derive"] }
serde_json = "*"
axum = "*"
reqwest = { version = "*", default-features = false }
hickory-proto = "*"
hickory-server = "*"
clap = { version = "*", features = ["derive", "env"] }
dotenvy = "*"
homedir = "*"
hostname = "*"
once_cell = "*"
ctrlc = "*"
uuid = { version = "*", features = ["v4"] }
tracing = "*"
async-trait = "*"
plain = "*"
