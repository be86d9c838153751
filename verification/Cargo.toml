[package]
name = "multicaster"
version = "0.1.0"
edition = "2021"
publish = false

[dependencies]
anyhow = "1"
clap = { version = "4", features = ["derive"] }
network-interface = "*"
socket2 = "*"
tokio = { version = "1", features = ["net", "time", "sync", "rt-multi-thread", "macros"] }
