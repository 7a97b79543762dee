[package]
name = "qiniu_download"
version = "0.1.0"
edition = "2021"
publish = false

[dependencies]
rand = "*"
crc32fast = "*"
tokio = { version = "*", features = ["rt", "sync", "time", "fs", "io-util"] }
fd-lock = "*"
reqwest = { version = "*", default-features = false, features = ["json"] }
serde = { version = "*", features = ["derive"] }
serde_json = "*"
toml = "*"
once_cell = "*"
log = "*"
futures = "*"
positioned-io = "*"
thiserror = "*"
