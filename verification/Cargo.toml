[package]
name = "winuxsh"
version = "0.1.0"
edition = "2021"
publish = false

[dependencies]
glob = "0.3"
anyhow = "1"
serde = { version = "1", features = ["derive"] }
serde_json = "1"
crossterm = "0.28"
filetime = "0.2"
dirs = "5"
