[package]
name = "zombie_jobs"
version = "0.1.0"
edition = "2021"
publish = false

[dependencies]
anyhow = "1"
clap = { version = "4", features = ["derive"] }
csv = "1"
env_logger = "0.11"
futures-util = "0.3"
log = "0.4"
regex = "1"
reqwest = "0.12"
serde = { version = "1", features = ["derive"] }
serde_json = "1"
sqlite = "0.36"
tokio = { version = "1", features = ["macros", "rt-multi-thread"] }
