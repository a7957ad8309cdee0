[package]
name = "rip_intruder"
version = "0.1.0"
edition = "2021"
publish = false

[dependencies]
regex = "1"
hyper = { version = "0.14", features = ["client", "http1", "tcp"] }
anyhow = "1"
clap = { version = "4", features = ["derive"] }
futures = "0.3"
indicatif = "0.17"
serde_json = "1"
tokio = { version = "1", features = ["rt-multi-thread", "macros"] }
