[package]
name = "budget_bot"
version = "0.1.0"
edition = "2021"
publish = false

[dependencies]
regex = "=1.13.1"
serde = { version = "=1.0.229", features = ["derive"] }
serde_json = "=1.0.154"
chrono = "=0.4.45"
reqwest = { version = "=0.11.27", features = ["json"] }
teloxide = { version = "=0.12.2", features = ["macros"] }
# Pulled in by teloxide-core; held below 0.1.2, which needs rustc 1.96.
takecell = "<0.1.2"
dptree = "=0.3.0"
tokio = { version = "=1.54.1", features = ["macros", "rt-multi-thread", "sync", "time"] }
futures = "=0.3.34"
async-std = "=1.13.2"
job_scheduler = "=1.2.1"
dotenv = "=0.15.0"
log = "=0.4.35"
pretty_env_logger = "=0.5.0"
