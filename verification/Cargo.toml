[package]
name = "bip300301_enforcer"
version = "0.1.0"
edition = "2021"
publish = false

[dependencies]
bitcoin = "*"
hex = "*"
heed = "*"
async-broadcast = "*"
tokio = { version = "*", features = ["rt-multi-thread", "macros", "time", "sync"] }
thiserror = "*"
clap = { version = "*", features = ["derive"] }
serde = { version = "*", features = ["derive"] }
serde_json = "*"
ureq = { version = "*", features = ["json"] }
tracing = "*"
tracing-subscriber = "*"
