[package]
name = "shared-target-core"
version = "0.1.0"
edition = "2021"
publish = false

[dependencies]
anyhow = "1"
clap = { version = "4", features = ["derive"] }
filetime = "0.2"
reflink-copy = "0.1"
rustix = { version = "1", features = ["fs"] }
serde_json = "1"
thiserror = "2"
walkdir = "2"
