[package]
name = "datacube"
version = "0.1.0"
edition = "2021"
publish = false

[dependencies]
fuzzy-matcher = "*"
meval = "*"
uuid = { version = "*", features = ["v4"] }
prost = "*"
tokio = { version = "*", features = ["full"] }
futures = "*"
anyhow = "*"
clap = { version = "*", features = ["derive"] }
serde = { version = "*", features = ["derive"] }
serde_json = "*"
toml = "*"
dirs = "*"
libc = "*"
tracing = "*"
tracing-subscriber = "*"
freedesktop-desktop-entry = "*"
