[package]
name = "mkfs-xfs"
version = "0.1.0"
edition = "2021"
publish = false

[dependencies]
uuid = { version = "1", features = ["v4"] }
tokio = { version = "1", features = ["rt-multi-thread", "macros"] }
futures = "0.3"
async-trait = "0.1"
clap = { version = "4", features = ["derive"] }
anyhow = "1"
thiserror = "2"
rustix = { version = "1", features = ["fs"] }
