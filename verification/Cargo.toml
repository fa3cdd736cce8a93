[package]
name = "cfnupd"
version = "0.1.0"
edition = "2021"
publish = false

[dependencies]
rand = "0.8"
anyhow = "1"
aws-config = "*"
aws-sdk-cloudformation = "*"
clap = { version = "4", features = ["derive"] }
config = "*"
console = "*"
dirs = "*"
serde = { version = "1", features = ["derive"] }
serde_json = "1"
tokio = { version = "1", features = ["macros", "rt-multi-thread"] }
tracing = "*"
tracing-subscriber = "*"
