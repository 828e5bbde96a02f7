[package]
name = "web2llm"
version = "0.4.0"
edition = "2021"
publish = false

[dependencies]
url = "2"
htmd = "*"
texting_robots = "*"
chrono = "0.4"
tl = "*"
reqwest = "*"
tokio = { version = "1", features = ["rt-multi-thread", "macros", "sync", "time"] }
governor = "*"
dashmap = "*"
futures = "*"
serde = { version = "1", features = ["derive"] }
serde_json = "1"
toml = "*"
clap = { version = "4", features = ["derive"] }
thiserror = "*"
chromiumoxide = "*"
tempfile = "3"
