[package]
name = "docker_maid"
version = "0.1.0"
edition = "2021"
publish = false

[dependencies]
bollard = "*"
clap = { version = "4", features = ["derive"] }
crossterm = { version = "*", features = ["event-stream"] }
fs2 = "0.4"
futures-util = "0.3"
globset = "0.4"
humantime = "2"
ratatui = "*"
regex = "1"
serde = { version = "1", features = ["derive"] }
serde_json = "1"
tokio = { version = "1", features = ["full"] }
toml = "*"
toml_edit = "*"
