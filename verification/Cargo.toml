[package]
name = "mem_yaml"
version = "0.1.0"
edition = "2021"
publish = false

[dependencies]
anyhow = "*"
chrono = { version = "=0.4.45", features = ["serde"] }
clap = { version = "*", features = ["derive"] }
fsrs = "=6.6.2"
rand = "=0.10.3"
ratatui = "*"
serde = { version = "*", features = ["derive"] }
serde_json = "*"
serde_yaml = "*"
tokio = { version = "*", features = ["fs", "io-std", "io-util", "macros", "rt-multi-thread"] }
uuid = { version = "=1.27.0", features = ["serde", "v5"] }
