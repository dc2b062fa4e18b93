[package]
name = "git_github"
version = "0.1.0"
edition = "2021"
publish = false

[dependencies]
serde_json = "=1.0.154"
serde = { version = "=1.0.229", features = ["derive"] }
clap = { version = "=4.6.7", features = ["derive"] }
git2 = "=0.21.0"
reqwest = { version = "=0.13.5", features = ["json", "stream"] }
tokio = { version = "=1.54.1", features = ["rt-multi-thread"] }
futures = "=0.3.34"
octocrab = "=0.47.1"
config = "=0.15.27"
open = "=5.4.5"
