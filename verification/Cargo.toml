[package]
name = "coding_agent"
version = "0.1.0"
edition = "2021"
publish = false

[dependencies]
async-openai = { version = "=0.43.0", features = ["byot", "chat-completion"] }
crossterm = "=0.29.0"
dotenvy = "=0.15.7"
futures = "=0.3.34"
ratatui = { version = "=0.30.2", features = ["unstable-rendered-line-info"] }
serde_json = "=1.0.154"
tokio = { version = "=1.54.1", features = ["full"] }
tui-markdown = "=0.3.13"
tui-scrollview = "=0.6.8"
