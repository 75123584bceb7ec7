[package]
name = "artifact"
version = "0.1.0"
edition = "2021"
publish = false

[dependencies]
humansize = "2"
serde = { version = "1", features = ["derive"] }
serde_json = "1"
hostname = "*"
toml = "*"
redb = "*"
rkyv = "0.8"
jwalk = "*"
trash = "*"
dirs = "*"
thiserror = "*"
anyhow = "1"
tracing = "0.1"
tracing-subscriber = { version = "0.3", features = ["env-filter", "json"] }
tracing-appender = "0.2"
parking_lot = "*"

[dev-dependencies]
tempfile = "3"
