[package]
name = "memory_agent"
version = "0.1.0"
edition = "2021"
publish = false

[dependencies]
# The code that langgraph's `tool` macro writes names this crate.
async-trait = "0.1"
chrono = "=0.4.45"
dotenvy = "0.15"
env_logger = "0.11"
langgraph = { version = "=0.2.5", features = ["prebuilt", "providers"] }
reqwest = { version = "=0.12.28", features = ["json"] }
serde = { version = "1", features = ["derive"] }
serde_json = "1"
tokio = { version = "1", features = ["macros", "rt-multi-thread"] }
