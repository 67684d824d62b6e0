[package]
name = "work_buddy"
version = "0.1.0"
edition = "2021"
publish = false

[dependencies]
anyhow = "1"
bytes = "1"
chrono = "0.4"
clap = { version = "4", features = ["derive"] }
color-eyre = "0.6"
crossterm = { version = "0.29", features = ["event-stream"] }
fastrand = "2"
futures = "0.3"
pin-project = "1"
ratatui = "0.30"
ratatui-textarea = "0.9"
reqwest = { version = "0.12", default-features = false, features = ["json", "stream"] }
schemars = "1"
serde = { version = "1", features = ["derive"] }
serde_json = "1"
textwrap = "0.16"
tokio = { version = "1", features = ["macros", "rt", "rt-multi-thread", "sync", "time"] }
toml = "0.9"
tracing = "0.1"
tracing-subscriber = { version = "0.3", features = ["env-filter"] }
unicode-segmentation = "1"
unicode-width = "0.2"
urlencoding = "2"
