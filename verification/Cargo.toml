[package]
name = "pherowar"
version = "0.1.0"
edition = "2021"
publish = false

[dependencies]
anyhow = "1"
serde = { version = "1", features = ["derive"] }
clap = { version = "4", features = ["derive"] }
toml = "*"
bincode = "2"
bincode_derive = "2"
rkyv = "0.8"
