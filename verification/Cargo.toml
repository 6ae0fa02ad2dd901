[package]
name = "ratchjob"
version = "0.1.0"
edition = "2021"
publish = false

[dependencies]
cron = "*"
chrono = "0.4"
inner-mem-cache = "*"
clap = { version = "4", features = ["derive"] }
serde = { version = "1", features = ["derive"] }
serde_json = "1"
dotenv = "0.15"
dirs = "*"
log = "0.4"
env_logger = "*"
