[package]
name = "oss_cli"
version = "0.1.0"
edition = "2021"
publish = false

[dependencies]
aliyun-oss-client = "*"
chrono = "0.4"
clap = { version = "4", features = ["derive"] }
crossterm = "0.27"
dotenv = "0.15"
futures = "0.3"
ratatui = "0.26"
serde = { version = "1", features = ["derive"] }
term_grid = "0.2"
thiserror = "1"
tokio = { version = "1", features = ["rt-multi-thread", "macros", "sync"] }
