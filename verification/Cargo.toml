[package]
name = "lima"
version = "0.1.0"
edition = "2021"
publish = false

[dependencies]
aes-gcm = "0.10"
hex = "0.4"
p256 = { version = "0.13", features = ["ecdsa"] }
anyhow = "1"
crossterm = "0.28"
ratatui = "0.29"
rusqlite = "0.32"
rpassword = "7"
dirs = "5"
libc = "0.2"
reqwest = { version = "0.12", default-features = false }
rumqttc = { version = "0.24", default-features = false }
serde = { version = "1", features = ["derive"] }
tokio = { version = "1", features = ["macros", "rt-multi-thread", "sync", "time", "signal"] }
