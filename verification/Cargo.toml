[package]
name = "geerpc"
version = "0.1.0"
edition = "2021"
publish = false

[dependencies]
heck = "0.5"
tokio = { version = "1", features = ["full"] }
serde = { version = "1", features = ["derive"] }
bincode = "1"
snafu = "0.8"
tracing = "0.1"
tracing-subscriber = "0.3"
async-trait = "0.1"
serde_yaml = "0.9"
syn = { version = "2", features = ["full"] }
quote = "1"
proc-macro2 = "1"
